//! Address-match filtering: deciding whether an inbound message-post event
//! is addressed to the relay, and deriving the identity, the content and the
//! arrival target of the exchange it triggers.
use vstd::prelude::*;
use crate::text::{chars_of, str_eq, string_of_chars};

verus! {

/// One inbound message-post event, reduced to what the filter reads: where
/// it was posted, its text, and the sender's nickname when the event carried
/// usable sender metadata.
pub struct InboundMessage {
    pub target: String,
    pub text: String,
    pub sender: Option<String>,
}

/// The placeholder identity used when sender metadata is absent or
/// malformed.
pub open spec fn fallback_identity() -> Seq<char> {
    "Luser"@
}

/// The sender identity a private delivery must not carry.
pub open spec fn disallowed_sentinel() -> Seq<char> {
    "DM"@
}

/// How a channel message must begin to address the relay: the relay's
/// current name, then a fixed separator.
pub open spec fn address_prefix(self_nick: Seq<char>) -> Seq<char> {
    self_nick + ": "@
}

/// The identity derived from optional sender metadata.
pub open spec fn identity_model(sender: Option<Seq<char>>) -> Seq<char> {
    match sender {
        Some(nick) => nick,
        None => fallback_identity(),
    }
}

/// What the filter decides for one event: `None` to ignore it, otherwise
/// the `(identity, content, arrival_target)` of the triggered exchange.
/// A post in a monitored group channel is consumed when its text starts
/// with the address prefix; the prefix is stripped from the content and the
/// sender falls back to the placeholder identity. A post targeted at the
/// relay's own name is a private delivery: consumed whole, provided the
/// sender is known and not the disallowed sentinel, and answered to the
/// sender directly.
pub open spec fn classify_model(
    target: Seq<char>,
    text: Seq<char>,
    sender: Option<Seq<char>>,
    self_nick: Seq<char>,
    channels: Seq<Seq<char>>,
) -> Option<(Seq<char>, Seq<char>, Seq<char>)> {
    if channels.contains(target) {
        if address_prefix(self_nick).is_prefix_of(text) {
            Some(
                (
                    identity_model(sender),
                    text.skip(address_prefix(self_nick).len() as int),
                    target,
                ),
            )
        } else {
            None
        }
    } else if target == self_nick {
        match sender {
            Some(nick) => if nick != disallowed_sentinel() {
                Some((nick, text, nick))
            } else {
                None
            },
            None => None,
        }
    } else {
        None
    }
}

/// The filter's decision for one event.
pub enum Dispatch {
    /// Not addressed to the relay; no side effects.
    Ignore,
    /// Addressed to the relay: run the pipeline for `identity` on `content`,
    /// delivering to `arrival_target`.
    Respond { identity: String, content: String, arrival_target: String },
}

/// Whether some monitored channel reads as `s`.
fn contains_str(channels: &Vec<String>, s: &str) -> (r: bool)
    ensures
        r == channels.deep_view().contains(s@),
{
    let n = channels.len();
    let mut i: usize = 0;
    while i < n
        invariant
            n == channels@.len(),
            0 <= i <= n,
            forall|k: int| 0 <= k < i ==> channels@[k]@ != s@,
        decreases n - i,
    {
        if str_eq(channels[i].as_str(), s) {
            proof {
                assert(channels.deep_view()[i as int] == s@);
            }
            return true;
        }
        i = i + 1;
    }
    proof {
        assert(forall|k: int|
            0 <= k < channels.deep_view().len() ==> #[trigger] channels.deep_view()[k]
                == channels@[k]@);
    }
    false
}

/// Whether `text` starts with `prefix`, and the remainder after it.
fn strip_prefix_chars(text: &Vec<char>, prefix: &Vec<char>) -> (r: Option<Vec<char>>)
    ensures
        match r {
            Some(rest) => prefix@.is_prefix_of(text@) && rest@ == text@.skip(prefix@.len() as int),
            None => !prefix@.is_prefix_of(text@),
        },
{
    let np = prefix.len();
    if text.len() < np {
        proof {
            assert(!prefix@.is_prefix_of(text@));
        }
        return None;
    }
    let mut i: usize = 0;
    while i < np
        invariant
            np == prefix@.len() <= text@.len(),
            0 <= i <= np,
            forall|k: int| 0 <= k < i ==> text@[k] == prefix@[k],
        decreases np - i,
    {
        if text[i] != prefix[i] {
            proof {
                assert(!prefix@.is_prefix_of(text@));
            }
            return None;
        }
        i = i + 1;
    }
    let mut rest: Vec<char> = Vec::new();
    let mut k: usize = np;
    let n = text.len();
    while k < n
        invariant
            np <= k <= n == text@.len(),
            rest@ == text@.subrange(np as int, k as int),
        decreases n - k,
    {
        rest.push(text[k]);
        k = k + 1;
        proof {
            assert(rest@ =~= text@.subrange(np as int, k as int));
        }
    }
    proof {
        assert(prefix@ =~= text@.subrange(0, np as int));
        assert(rest@ =~= text@.skip(np as int));
    }
    Some(rest)
}

/// Decides whether one inbound event addresses the relay, exactly as
/// `classify_model` describes.
pub fn classify(msg: &InboundMessage, self_nick: &str, channels: &Vec<String>) -> (r: Dispatch)
    ensures
        match r {
            Dispatch::Ignore => classify_model(
                msg.target@,
                msg.text@,
                msg.sender.deep_view(),
                self_nick@,
                channels.deep_view(),
            ) is None,
            Dispatch::Respond { identity, content, arrival_target } => classify_model(
                msg.target@,
                msg.text@,
                msg.sender.deep_view(),
                self_nick@,
                channels.deep_view(),
            ) == Some((identity@, content@, arrival_target@)),
        },
{
    if contains_str(channels, msg.target.as_str()) {
        let text_chars = chars_of(msg.text.as_str());
        let mut prefix_chars = chars_of(self_nick);
        prefix_chars.push(':');
        prefix_chars.push(' ');
        proof {
            reveal_strlit(": ");
            assert(": "@.len() == 2);
            assert(": "@[0] == ':' && ": "@[1] == ' ');
            assert(prefix_chars@ =~= self_nick@ + ": "@);
            assert(prefix_chars@ =~= address_prefix(self_nick@));
        }
        match strip_prefix_chars(&text_chars, &prefix_chars) {
            Some(rest) => {
                let identity: String = match &msg.sender {
                    Some(nick) => nick.clone(),
                    None => "Luser".to_owned(),
                };
                Dispatch::Respond {
                    identity,
                    content: string_of_chars(&rest),
                    arrival_target: msg.target.clone(),
                }
            },
            None => Dispatch::Ignore,
        }
    } else if str_eq(msg.target.as_str(), self_nick) {
        match &msg.sender {
            Some(nick) => {
                if !str_eq(nick.as_str(), "DM") {
                    Dispatch::Respond {
                        identity: nick.clone(),
                        content: msg.text.clone(),
                        arrival_target: nick.clone(),
                    }
                } else {
                    Dispatch::Ignore
                }
            },
            None => Dispatch::Ignore,
        }
    } else {
        Dispatch::Ignore
    }
}

} // verus!
