//! Deciding how to answer an inbound relay message: whether to suggest a
//! reply at all, the subject and prompt of the suggestion, the text used
//! when no language model answers, and what the autonomy gate's answer
//! leads to.

use vstd::prelude::*;
use crate::text::{
    ascii_lower, ascii_lower_char, ascii_lower_vec, chars_of, concat_str, is_ws, lemma_trim_empty, starts_with, starts_with_vec,
    string_from_chars, trim, trim_vec,
};
use crate::obsidian::strings_view;

verus! {

/// How far the vault trusts a relay contact.
#[derive(PartialEq, Eq, Structural, Clone, Copy, Debug)]
pub enum TrustLevel {
    /// Messages are relayed, never answered.
    RelayOnly,
    /// Context may be shared, replies need approval.
    ContextInject,
    /// Replies may be sent automatically.
    Full,
}

/// The autonomy gate's answer on an action.
#[derive(PartialEq, Eq, Structural, Clone, Copy, Debug)]
pub enum AutonomyDecision {
    AutoApply,
    Defer,
    QueueForLater,
    Block,
}

/// What is done with a suggested reply.
#[derive(PartialEq, Eq, Structural, Clone, Copy, Debug)]
pub enum ReplyAction {
    /// Send the reply and mark the message auto-replied.
    Send,
    /// Submit the reply as a proposal and mark the message deferred.
    Propose,
    /// Do nothing.
    Drop,
}

/// Whether the sender's contact is looked up: the message was stored
/// without failure and names its sender.
pub fn should_look_up_sender(failed: bool, has_sender: bool) -> (b: bool)
    ensures
        b == (!failed && has_sender),
{
    !failed && has_sender
}

/// Whether a known contact's message gets a suggested reply: the contact is
/// trusted beyond relaying, and the message is text that is not blank.
pub open spec fn reply_allowed(trust: TrustLevel, is_text: bool, content: Seq<char>) -> bool {
    trust != TrustLevel::RelayOnly && is_text && trim(content).len() > 0
}

/// Whether a known contact's message gets a suggested reply.
pub fn contact_allows_reply(trust: TrustLevel, is_text: bool, content: &str) -> (b: bool)
    ensures
        b == reply_allowed(trust, is_text, content@),
{
    if trust == TrustLevel::RelayOnly || !is_text {
        return false;
    }
    let c = chars_of(content);
    let t = trim_vec(c.as_slice());
    t.len() > 0
}

/// The subject of a reply to a message with subject `s`: none for a blank
/// subject; the trimmed subject when it already starts with `re:` in any
/// ASCII case; else `Re: ` before it.
pub open spec fn reply_subject_of(s: Option<Seq<char>>) -> Option<Seq<char>> {
    match s {
        None => None,
        Some(v) => {
            let t = trim(v);
            if t.len() == 0 {
                None
            } else if starts_with(ascii_lower(t), "re:"@) {
                Some(t)
            } else {
                Some("Re: "@ + t)
            }
        },
    }
}

/// The subject of a reply to a message whose subject is `subject`.
pub fn reply_subject(subject: Option<&str>) -> (r: Option<String>)
    ensures
        crate::obsidian::opt_string_view(&r) == reply_subject_of(match subject {
            Some(s) => Some(s@),
            None => None,
        }),
{
    match subject {
        None => None,
        Some(v) => {
            let c = chars_of(v);
            let t = trim_vec(c.as_slice());
            if t.len() == 0 {
                return None;
            }
            let l = ascii_lower_vec(t.as_slice());
            let re = chars_of("re:");
            let ts = string_from_chars(t.as_slice());
            if starts_with_vec(l.as_slice(), re.as_slice()) {
                Some(ts)
            } else {
                Some(concat_str("Re: ", ts.as_str()))
            }
        },
    }
}

/// The text a reply is suggested for: the message, headed by its subject
/// when it has one.
pub open spec fn reply_prompt_of(subject: Option<Seq<char>>, content: Seq<char>) -> Seq<char> {
    match subject {
        Some(s) => "Subject: "@ + s + "\n\n"@ + content,
        None => content,
    }
}

/// The text a reply is suggested for.
pub fn reply_prompt(subject: &Option<String>, content: &str) -> (out: String)
    ensures
        out@ == reply_prompt_of(crate::obsidian::opt_string_view(subject), content@),
{
    match subject {
        Some(s) => {
            let a = concat_str("Subject: ", s.as_str());
            let a = concat_str(a.as_str(), "\n\n");
            concat_str(a.as_str(), content)
        },
        None => content.to_string(),
    }
}

/// `parts` joined with newlines.
pub open spec fn join_lines(parts: Seq<Seq<char>>) -> Seq<char>
    decreases parts.len(),
{
    if parts.len() == 0 {
        Seq::empty()
    } else if parts.len() == 1 {
        parts[0]
    } else {
        join_lines(parts.drop_last()) + "\n"@ + parts.last()
    }
}

/// The reply suggested when no language model gives one: the first three
/// context snippets, offered.
pub open spec fn fallback_reply_of(snippets: Seq<Seq<char>>) -> Seq<char> {
    let preview = join_lines(if snippets.len() > 3 { snippets.take(3) } else { snippets });
    "I have related notes that might help:\n"@ + preview + "\n\nWant me to share details?"@
}

/// The reply suggested when no language model gives one.
pub fn fallback_reply(snippets: &Vec<String>) -> (out: String)
    ensures
        out@ == fallback_reply_of(strings_view(snippets@)),
{
    let ghost sv = strings_view(snippets@);
    let n: usize = if snippets.len() > 3 { 3 } else { snippets.len() };
    let ghost shown = if sv.len() > 3 { sv.take(3) } else { sv };
    let mut preview = String::new();
    let mut i: usize = 0;
    proof {
        assert(shown.len() == n);
        assert(shown.take(0) =~= Seq::<Seq<char>>::empty());
    }
    while i < n
        invariant
            i <= n,
            n <= snippets@.len(),
            sv == strings_view(snippets@),
            shown.len() == n,
            forall|k: int| 0 <= k < n ==> shown[k] == sv[k],
            preview@ == join_lines(shown.take(i as int)),
        decreases n - i,
    {
        proof {
            let t = shown.take(i + 1);
            assert(t.drop_last() =~= shown.take(i as int));
            assert(t.last() == snippets@[i as int]@);
            if i == 0 {
                assert(t.len() == 1);
            }
        }
        if i == 0 {
            preview = snippets[i].clone();
        } else {
            let a = concat_str(preview.as_str(), "\n");
            preview = concat_str(a.as_str(), snippets[i].as_str());
        }
        i += 1;
    }
    proof { assert(shown.take(n as int) =~= shown); }
    let a = concat_str("I have related notes that might help:\n", preview.as_str());
    concat_str(a.as_str(), "\n\nWant me to share details?")
}

/// The suggested reply: the last suggestion of the language model when it
/// gave any, else the fallback. The flag tells whether the model's text was
/// used.
pub open spec fn suggestion_of(model: Option<Seq<Seq<char>>>, snippets: Seq<Seq<char>>) -> (Seq<char>, bool) {
    match model {
        Some(v) => if v.len() > 0 { (v.last(), true) } else { (fallback_reply_of(snippets), false) },
        None => (fallback_reply_of(snippets), false),
    }
}

/// Picks the suggested reply from the language model's suggestions (`None`
/// when there is no model or it failed) and the context snippets.
pub fn choose_suggestion(model: Option<Vec<String>>, snippets: &Vec<String>) -> (r: (String, bool))
    ensures
        (r.0@, r.1) == suggestion_of(crate::obsidian::opt_strings_view(model), strings_view(snippets@)),
{
    match model {
        Some(mut v) => {
            let ghost before = strings_view(v@);
            match v.pop() {
                Some(s) => {
                    proof { assert(s@ == before.last()); }
                    (s, true)
                },
                None => (fallback_reply(snippets), false),
            }
        },
        None => (fallback_reply(snippets), false),
    }
}

/// The autonomy answer that counts: an automatic reply is deferred unless
/// the contact is fully trusted.
pub open spec fn effective_decision_of(trust: TrustLevel, decision: AutonomyDecision) -> AutonomyDecision {
    if trust != TrustLevel::Full && decision == AutonomyDecision::AutoApply {
        AutonomyDecision::Defer
    } else {
        decision
    }
}

/// What is done with a suggested reply once the autonomy gate has answered.
pub open spec fn reply_action_of(decision: AutonomyDecision) -> ReplyAction {
    match decision {
        AutonomyDecision::AutoApply => ReplyAction::Send,
        AutonomyDecision::Defer | AutonomyDecision::QueueForLater => ReplyAction::Propose,
        AutonomyDecision::Block => ReplyAction::Drop,
    }
}

/// Decides what is done with a suggested reply to a contact of `trust`,
/// given the autonomy gate's answer `decision`.
pub fn reply_action(trust: TrustLevel, decision: AutonomyDecision) -> (a: ReplyAction)
    ensures
        a == reply_action_of(effective_decision_of(trust, decision)),
        a == ReplyAction::Send ==> trust == TrustLevel::Full,
{
    let d = if trust != TrustLevel::Full && decision == AutonomyDecision::AutoApply {
        AutonomyDecision::Defer
    } else {
        decision
    };
    match d {
        AutonomyDecision::AutoApply => ReplyAction::Send,
        AutonomyDecision::Defer | AutonomyDecision::QueueForLater => ReplyAction::Propose,
        AutonomyDecision::Block => ReplyAction::Drop,
    }
}

/// Who gets a suggested reply: a fully trusted or context-inject contact
/// whose text message holds some non-whitespace character always does; a
/// relay-only contact, a message that is not text, and a message of
/// whitespace only never do.
pub proof fn lemma_who_gets_a_reply(trust: TrustLevel, is_text: bool, content: Seq<char>)
    ensures
        (trust == TrustLevel::Full || trust == TrustLevel::ContextInject) && is_text
            && (exists|i: int| 0 <= i < content.len() && !is_ws(#[trigger] content[i])) ==> reply_allowed(trust, is_text, content),
        trust == TrustLevel::RelayOnly ==> !reply_allowed(trust, is_text, content),
        !is_text ==> !reply_allowed(trust, is_text, content),
        (forall|i: int| 0 <= i < content.len() ==> is_ws(#[trigger] content[i])) ==> !reply_allowed(trust, is_text, content),
{
    lemma_trim_empty(content);
}

/// What becomes of a suggested reply: it is sent only to a fully trusted
/// contact whose autonomy answer is to apply it automatically; a blocked
/// reply is dropped; every other reply (a deferred or queued one, or an
/// automatic one to a contact below full trust) is proposed to the owner.
pub proof fn lemma_reply_outcomes(trust: TrustLevel, decision: AutonomyDecision)
    ensures
        reply_action_of(effective_decision_of(trust, decision)) == ReplyAction::Send
            <==> (trust == TrustLevel::Full && decision == AutonomyDecision::AutoApply),
        reply_action_of(effective_decision_of(trust, decision)) == ReplyAction::Drop
            <==> decision == AutonomyDecision::Block,
        reply_action_of(effective_decision_of(trust, decision)) == ReplyAction::Propose
            <==> (decision == AutonomyDecision::Defer || decision == AutonomyDecision::QueueForLater
                || (decision == AutonomyDecision::AutoApply && trust != TrustLevel::Full)),
{
}

/// The subject of a reply: none when the message has no subject or one of
/// whitespace only; otherwise the subject without its surrounding
/// whitespace, with `Re: ` put before it unless it already begins with
/// `re:` in any ASCII case.
pub proof fn lemma_reply_subject_shape(subject: Seq<char>)
    ensures
        reply_subject_of(None) is None,
        (forall|i: int| 0 <= i < subject.len() ==> is_ws(#[trigger] subject[i])) ==> reply_subject_of(Some(subject)) is None,
        (exists|i: int| 0 <= i < subject.len() && !is_ws(#[trigger] subject[i])) ==> ({
            let t = trim(subject);
            let prefixed = t.len() >= 3 && (t[0] == 'r' || t[0] == 'R') && (t[1] == 'e' || t[1] == 'E') && t[2] == ':';
            &&& prefixed ==> reply_subject_of(Some(subject)) == Some(t)
            &&& !prefixed ==> reply_subject_of(Some(subject)) == Some(seq!['R', 'e', ':', ' '] + t)
        }),
{
    lemma_trim_empty(subject);
    reveal_strlit("re:");
    reveal_strlit("Re: ");
    let t = trim(subject);
    assert("re:"@ =~= seq!['r', 'e', ':']);
    if t.len() >= 3 {
        assert(ascii_lower(t).take(3) =~= seq![ascii_lower_char(t[0]), ascii_lower_char(t[1]), ascii_lower_char(t[2])]);
        lemma_lower_char_is(t[0]);
        lemma_lower_char_is(t[1]);
        lemma_lower_char_is(t[2]);
    }
    assert("Re: "@ =~= seq!['R', 'e', ':', ' ']);
}

proof fn lemma_lower_char_is(c: char)
    ensures
        ascii_lower_char(c) == 'r' <==> (c == 'r' || c == 'R'),
        ascii_lower_char(c) == 'e' <==> (c == 'e' || c == 'E'),
        ascii_lower_char(c) == ':' <==> c == ':',
{
    if 'A' <= c <= 'Z' {
        let d = ((c as u32) + 32) as char;
        assert(d as u32 == (c as u32) + 32);
    }
}

/// The reply offered without a language model: a fixed opening line, then
/// the first three context snippets (all of them when there are fewer), one
/// per line, then the offer to share details.
pub proof fn lemma_fallback_reply_shape(snippets: Seq<Seq<char>>)
    ensures
        fallback_reply_of(snippets) == "I have related notes that might help:\n"@
            + join_lines(snippets.take(if snippets.len() < 3 { snippets.len() as int } else { 3 }))
            + "\n\nWant me to share details?"@,
{
    if snippets.len() <= 3 {
        assert(snippets.take(snippets.len() as int) =~= snippets);
    }
}

/// Which reply is suggested: the last suggestion of a language model that
/// gave at least one (and it counts as the model's); otherwise the fallback
/// built from the snippets.
pub proof fn lemma_suggestion_source(model: Option<Seq<Seq<char>>>, snippets: Seq<Seq<char>>)
    ensures
        (model matches Some(v) && v.len() > 0) ==> suggestion_of(model, snippets) == (model->0[model->0.len() - 1], true),
        !(model matches Some(v) && v.len() > 0) ==> suggestion_of(model, snippets) == (fallback_reply_of(snippets), false),
{
}

} // verus!
