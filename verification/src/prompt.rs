//! Prompt construction: the exact ordered turn sequence handed to the
//! completion service for one identity — an ephemeral persona directive
//! followed by the identity's entire stored history.
use vstd::prelude::*;
use vstd::string::StringExecFns;
use crate::store::{ConversationStore, Role, Turn, TurnView};

verus! {

/// Why a prompt could not be built.
#[derive(Clone, Copy, PartialEq, Eq, Structural, Debug)]
pub enum PromptError {
    /// The identity has no recorded history: the caller skipped recording
    /// the triggering user turn.
    NoHistory,
}

/// The persona directive for one identity: fixed instruction text around the
/// identity the reply must address.
pub open spec fn directive(id: Seq<char>) -> Seq<char> {
    "You are an IRC chat bot. Your name is pickles. Your job is to respond to other members of your channel in a funny and humorous manner. You are supposed to make people laugh. You should be silly, funny, stupid, irreverent, witty, likable, and fun. Your responses don't have to make sense but the should make people laugh. Your most recent message is from: "@
        + id + ". Make sure you respond to them."@
}

/// The exact prompt for an identity with history `h`: one fresh System-role
/// directive turn, then the stored history in stored order.
pub open spec fn prompt_model(id: Seq<char>, h: Seq<TurnView>) -> Seq<TurnView> {
    seq![TurnView { role: Role::System, content: directive(id) }] + h
}

/// Builds the directive turn's text for `identity`.
pub fn directive_for(identity: &str) -> (r: String)
    ensures
        r@ == directive(identity@),
{
    let mut s =
        "You are an IRC chat bot. Your name is pickles. Your job is to respond to other members of your channel in a funny and humorous manner. You are supposed to make people laugh. You should be silly, funny, stupid, irreverent, witty, likable, and fun. Your responses don't have to make sense but the should make people laugh. Your most recent message is from: ".to_owned();
    s.append(identity);
    s.append(". Make sure you respond to them.");
    s
}

/// Builds the request payload for `identity`: the directive turn followed by
/// the whole stored history, in stored order. The directive turn is never
/// written back into the store (`build` cannot mutate it), so it stays
/// invisible to future turns. Fails exactly when the identity has no stored
/// history at all.
pub fn build(identity: &str, store: &ConversationStore) -> (r: Result<Vec<Turn>, PromptError>)
    requires
        store.wf(),
    ensures
        match r {
            Ok(v) => store.history(identity@) is Some && v.deep_view() == prompt_model(
                identity@,
                store.history(identity@)->Some_0,
            ),
            Err(e) => store.history(identity@) is None && e == PromptError::NoHistory,
        },
{
    match store.history_of(identity) {
        None => Err(PromptError::NoHistory),
        Some(h) => {
            let ghost hist = h.deep_view();
            let mut v: Vec<Turn> = Vec::new();
            v.push(Turn { role: Role::System, content: directive_for(identity) });
            let n = h.len();
            let mut i: usize = 0;
            proof {
                assert(v.deep_view() =~~= prompt_model(identity@, hist.take(0)));
            }
            while i < n
                invariant
                    n == h@.len(),
                    0 <= i <= n,
                    hist == h.deep_view(),
                    v.deep_view() == prompt_model(identity@, hist.take(i as int)),
                decreases n - i,
            {
                let ghost old_v = v.deep_view();
                v.push(h[i].duplicate());
                proof {
                    assert(v.deep_view() =~~= old_v.push(h@[i as int]@));
                    assert(hist.take(i + 1) =~= hist.take(i as int).push(hist[i as int]));
                    assert(hist[i as int] == h@[i as int]@);
                    assert(prompt_model(identity@, hist.take(i + 1)) =~= old_v.push(
                        h@[i as int]@,
                    ));
                }
                i = i + 1;
            }
            proof {
                assert(hist.take(n as int) =~= hist);
            }
            Ok(v)
        },
    }
}

/// The shape of every built prompt: it is one turn longer than the history,
/// its first turn carries the System role, and the turns after the first are
/// the stored history, unchanged and in order.
pub proof fn lemma_prompt_shape(id: Seq<char>, h: Seq<TurnView>)
    ensures
        prompt_model(id, h).len() == h.len() + 1,
        prompt_model(id, h)[0].role == Role::System,
        prompt_model(id, h).skip(1) == h,
{
    assert(prompt_model(id, h).skip(1) =~= h);
}

} // verus!
