//! Settling a completion outcome: the first candidate reply is recorded into
//! the store as an Assistant turn exactly once and handed to delivery; zero
//! candidates yield a fallback reply and leave the store untouched.
use vstd::prelude::*;
use crate::store::{ConversationStore, Role, TurnView, record_model};

verus! {

/// Upper bound on the completion service's generated tokens, handed along
/// with every request.
pub const MAX_COMPLETION_TOKENS: u16 = 2048;

/// The reply used when the completion service returns zero candidates.
pub open spec fn fallback_text() -> Seq<char> {
    "hrmmm I'm not really sure..."@
}

/// The reply text carried by one candidate: its content, or empty when the
/// candidate came without content.
pub open spec fn candidate_content(c: Option<Seq<char>>) -> Seq<char> {
    match c {
        Some(s) => s,
        None => Seq::empty(),
    }
}

/// Builds the fallback reply.
pub fn fallback_reply() -> (r: String)
    ensures
        r@ == fallback_text(),
{
    "hrmmm I'm not really sure...".to_owned()
}

/// Takes the candidate replies of one completion call (each an optional
/// content string, in the service's order) and settles them against the
/// store: with no candidate the fallback reply is returned and the store is
/// left exactly as it was; otherwise the first candidate's content is
/// recorded under `identity` as one Assistant turn — exactly once, evicting
/// the oldest turn if the history overflows — and returned for delivery.
pub fn settle_completion(
    store: &mut ConversationStore,
    identity: &str,
    choices: &Vec<Option<String>>,
) -> (reply: String)
    requires
        old(store).wf(),
    ensures
        final(store).wf(),
        choices@.len() == 0 ==> *final(store) == *old(store) && reply@ == fallback_text(),
        choices@.len() > 0 ==> {
            &&& reply@ == candidate_content(choices.deep_view()[0])
            &&& final(store).history(identity@) == Some(
                record_model(
                    match old(store).history(identity@) {
                        Some(h) => h,
                        None => Seq::empty(),
                    },
                    TurnView { role: Role::Assistant, content: reply@ },
                ),
            )
            &&& forall|k: Seq<char>|
                k != identity@ ==> final(store).history(k) == old(store).history(k)
        },
{
    if choices.len() == 0 {
        return fallback_reply();
    }
    let content: String = match &choices[0] {
        Some(s) => s.clone(),
        None => String::new(),
    };
    proof {
        assert(choices.deep_view()[0] == choices@[0].deep_view());
    }
    store.record(identity, Role::Assistant, content.as_str());
    content
}

} // verus!
