//! Delivery planning: turn one reply string into an ordered sequence of
//! `(target, chunk)` messages that respects the per-message character limit
//! and the line budget of the arrival channel, choosing between delivering
//! directly and redirecting the whole reply to the sender's private target.
use vstd::prelude::*;
use vstd::string::StringExecFns;
use crate::text::{chars_of, chunk_line, chunk_split, line_split, split_lines, str_eq,
    string_of_chars, CHUNK_LIMIT};

verus! {

/// Maximum logical lines delivered to the arrival target.
pub const MAX_LINES: usize = 4;

/// Where and how much of a reply is sent.
#[derive(Clone, Copy, PartialEq, Eq, Structural, Debug)]
pub enum Strategy {
    /// At most `MAX_LINES` lines, sent to the arrival target; further lines
    /// are dropped.
    Direct,
    /// Every line, sent to the sender's private target, after one notice to
    /// the arrival target when that differs from the sender.
    Redirect,
}

/// The strategy a reply's line count selects.
pub open spec fn strategy_of(reply: Seq<char>) -> Strategy {
    if line_split(reply).len() > MAX_LINES {
        Strategy::Redirect
    } else {
        Strategy::Direct
    }
}

/// The notice posted to a group channel before a redirect.
pub open spec fn notice_text(sender: Seq<char>) -> Seq<char> {
    sender + ": sure but it's a big one so I'll send it to just you"@
}

/// All chunks of `lines`, in order, each addressed to `target`.
pub open spec fn chunks_to(target: Seq<char>, lines: Seq<Seq<char>>, limit: int) -> Seq<
    (Seq<char>, Seq<char>),
>
    decreases lines.len(),
{
    if lines.len() == 0 {
        Seq::empty()
    } else {
        chunk_split(lines[0], limit).map_values(|c: Seq<char>| (target, c)) + chunks_to(
            target,
            lines.drop_first(),
            limit,
        )
    }
}

/// The full delivery plan for a reply that arrived on `arrival` from
/// `sender`: over the line budget, one notice to the arrival target (only
/// when it differs from the sender) and then every line to the sender;
/// within the budget, the first `MAX_LINES` lines to the arrival target.
pub open spec fn plan_model(reply: Seq<char>, arrival: Seq<char>, sender: Seq<char>) -> Seq<
    (Seq<char>, Seq<char>),
> {
    let lines = line_split(reply);
    if lines.len() > MAX_LINES {
        let notice: Seq<(Seq<char>, Seq<char>)> = if arrival != sender {
            seq![(arrival, notice_text(sender))]
        } else {
            Seq::empty()
        };
        notice + chunks_to(sender, lines, CHUNK_LIMIT as int)
    } else {
        // at most MAX_LINES lines exist here, so the first MAX_LINES are all
        chunks_to(arrival, lines, CHUNK_LIMIT as int)
    }
}

proof fn lemma_chunks_to_push(target: Seq<char>, lines: Seq<Seq<char>>, x: Seq<char>, limit: int)
    ensures
        chunks_to(target, lines.push(x), limit) == chunks_to(target, lines, limit) + chunk_split(
            x,
            limit,
        ).map_values(|c: Seq<char>| (target, c)),
    decreases lines.len(),
{
    if lines.len() == 0 {
        assert(lines.push(x)[0] == x);
        assert(lines.push(x).drop_first() =~= Seq::<Seq<char>>::empty());
        assert(chunks_to(target, lines.push(x).drop_first(), limit) =~= Seq::<
            (Seq<char>, Seq<char>),
        >::empty());
        assert(chunks_to(target, lines.push(x), limit) =~= chunk_split(x, limit).map_values(
            |c: Seq<char>| (target, c),
        ));
        assert(chunks_to(target, lines, limit) + chunk_split(x, limit).map_values(
            |c: Seq<char>| (target, c),
        ) =~= chunk_split(x, limit).map_values(|c: Seq<char>| (target, c)));
    } else {
        assert(lines.push(x)[0] == lines[0]);
        assert(lines.push(x).drop_first() =~= lines.drop_first().push(x));
        lemma_chunks_to_push(target, lines.drop_first(), x, limit);
        assert(chunks_to(target, lines.push(x), limit) =~= chunks_to(target, lines, limit)
            + chunk_split(x, limit).map_values(|c: Seq<char>| (target, c)));
    }
}

/// Every message produced from lines is protocol-safe and correctly
/// addressed: its text stays within the character limit and its target is
/// the one chunking was asked for.
pub proof fn lemma_chunks_to_safe(target: Seq<char>, lines: Seq<Seq<char>>, limit: int)
    requires
        limit > 0,
    ensures
        forall|i: int|
            0 <= i < chunks_to(target, lines, limit).len() ==> (#[trigger] chunks_to(
                target,
                lines,
                limit,
            )[i]).1.len() <= limit && chunks_to(target, lines, limit)[i].0 == target,
    decreases lines.len(),
{
    if lines.len() > 0 {
        let head = chunk_split(lines[0], limit).map_values(|c: Seq<char>| (target, c));
        let rest = chunks_to(target, lines.drop_first(), limit);
        crate::text::lemma_chunks_preserve_content(lines[0], limit);
        lemma_chunks_to_safe(target, lines.drop_first(), limit);
        assert(chunks_to(target, lines, limit) == head + rest);
        assert forall|i: int|
            0 <= i < chunks_to(target, lines, limit).len() implies (#[trigger] chunks_to(
            target,
            lines,
            limit,
        )[i]).1.len() <= limit && chunks_to(target, lines, limit)[i].0 == target by {
            if i < head.len() {
                assert(chunks_to(target, lines, limit)[i] == head[i]);
                assert(head[i] == (target, chunk_split(lines[0], limit)[i]));
            } else {
                assert(chunks_to(target, lines, limit)[i] == rest[i - head.len()]);
            }
        }
    }
}

/// Every delivered message of a plan respects the strategy: under the direct
/// strategy each goes to the arrival target within the character limit;
/// under the redirect strategy the notice (present exactly when the arrival
/// target differs from the sender) goes first to the arrival target, and
/// every following message goes to the sender within the character limit.
pub proof fn lemma_plan_protocol_safe(reply: Seq<char>, arrival: Seq<char>, sender: Seq<char>)
    ensures
        strategy_of(reply) == Strategy::Direct ==> forall|i: int|
            0 <= i < plan_model(reply, arrival, sender).len() ==> (#[trigger] plan_model(
                reply,
                arrival,
                sender,
            )[i]).1.len() <= CHUNK_LIMIT && plan_model(reply, arrival, sender)[i].0 == arrival,
        strategy_of(reply) == Strategy::Redirect && arrival != sender ==> plan_model(
            reply,
            arrival,
            sender,
        )[0] == (arrival, notice_text(sender)),
        strategy_of(reply) == Strategy::Redirect ==> forall|i: int|
            (if arrival != sender {
                1int
            } else {
                0int
            }) <= i < plan_model(reply, arrival, sender).len() ==> (#[trigger] plan_model(
                reply,
                arrival,
                sender,
            )[i]).1.len() <= CHUNK_LIMIT && plan_model(reply, arrival, sender)[i].0 == sender,
{
    let lines = line_split(reply);
    let p = plan_model(reply, arrival, sender);
    if lines.len() > MAX_LINES {
        lemma_chunks_to_safe(sender, lines, CHUNK_LIMIT as int);
        let body = chunks_to(sender, lines, CHUNK_LIMIT as int);
        if arrival != sender {
            assert(p == seq![(arrival, notice_text(sender))] + body);
            assert(forall|i: int| 1 <= i < p.len() ==> p[i] == body[i - 1]);
        } else {
            assert(p =~= body);
        }
    } else {
        lemma_chunks_to_safe(arrival, lines, CHUNK_LIMIT as int);
    }
}

/// Appends every chunk of every line to `out`, addressed to `target`.
fn push_chunks(out: &mut Vec<(String, String)>, target: &str, lines: &Vec<Vec<char>>)
    ensures
        final(out).deep_view() == old(out).deep_view() + chunks_to(
            target@,
            lines.deep_view(),
            CHUNK_LIMIT as int,
        ),
{
    let ghost base = out.deep_view();
    let ghost lv = lines.deep_view();
    let n = lines.len();
    let mut i: usize = 0;
    proof {
        assert(lv.take(0) =~= Seq::<Seq<char>>::empty());
        assert(base + chunks_to(target@, lv.take(0), CHUNK_LIMIT as int) =~= base);
    }
    while i < n
        invariant
            n == lines@.len(),
            0 <= i <= n,
            lv == lines.deep_view(),
            out.deep_view() == base + chunks_to(target@, lv.take(i as int), CHUNK_LIMIT as int),
        decreases n - i,
    {
        let chunks = chunk_line(&lines[i], CHUNK_LIMIT);
        let ghost cs = chunk_split(lv[i as int], CHUNK_LIMIT as int);
        proof {
            assert(lines@[i as int].deep_view() == lv[i as int]);
            assert(lv[i as int] =~= lines@[i as int]@);
            assert(chunks.deep_view() == cs);
        }
        let m = chunks.len();
        let mut j: usize = 0;
        let ghost f = |c: Seq<char>| (target@, c);
        let ghost mid = out.deep_view();
        while j < m
            invariant
                m == chunks@.len(),
                0 <= j <= m,
                cs == chunks.deep_view(),
                out.deep_view() == mid + cs.take(j as int).map_values(f),
                f == (|c: Seq<char>| (target@, c)),
            decreases m - j,
        {
            let ghost old_out = out.deep_view();
            let text = string_of_chars(&chunks[j]);
            out.push((target.to_owned(), text));
            proof {
                assert(out.deep_view() =~~= old_out.push((target@, cs[j as int])));
                assert(cs.take(j + 1) =~= cs.take(j as int).push(cs[j as int]));
                assert(cs.take(j + 1).map_values(f) =~= cs.take(j as int).map_values(f).push(
                    f(cs[j as int]),
                ));
                assert(out.deep_view() =~~= mid + cs.take(j + 1).map_values(f));
            }
            j = j + 1;
        }
        proof {
            assert(cs.take(m as int) =~= cs);
            lemma_chunks_to_push(target@, lv.take(i as int), lv[i as int], CHUNK_LIMIT as int);
            assert(lv.take(i + 1) =~= lv.take(i as int).push(lv[i as int]));
            assert(out.deep_view() =~~= base + chunks_to(
                target@,
                lv.take(i + 1),
                CHUNK_LIMIT as int,
            ));
        }
        i = i + 1;
    }
    proof {
        assert(lv.take(n as int) =~= lv);
    }
}

/// Decides the delivery strategy for a reply.
pub fn delivery_strategy(reply: &str) -> (r: Strategy)
    ensures
        r == strategy_of(reply@),
{
    let chars = chars_of(reply);
    let lines = split_lines(&chars);
    proof {
        assert(lines.deep_view().len() == lines@.len());
    }
    if lines.len() > MAX_LINES {
        Strategy::Redirect
    } else {
        Strategy::Direct
    }
}

/// Builds the notice text naming the sender.
pub fn notice_for(sender: &str) -> (r: String)
    ensures
        r@ == notice_text(sender@),
{
    let mut s = sender.to_owned();
    s.append(": sure but it's a big one so I'll send it to just you");
    s
}

/// Transforms one reply into its ordered delivery plan, exactly as
/// `plan_model` describes: a pure function of the reply text, the arrival
/// target and the sender, so re-planning the same reply always yields the
/// same ordered chunk sequence.
pub fn plan_delivery(reply: &str, arrival_target: &str, sender: &str) -> (r: Vec<(String, String)>)
    ensures
        r.deep_view() == plan_model(reply@, arrival_target@, sender@),
{
    let chars = chars_of(reply);
    let lines = split_lines(&chars);
    let mut out: Vec<(String, String)> = Vec::new();
    proof {
        assert(out.deep_view() =~= Seq::<(Seq<char>, Seq<char>)>::empty());
    }
    if lines.len() > MAX_LINES {
        if !str_eq(arrival_target, sender) {
            out.push((arrival_target.to_owned(), notice_for(sender)));
            proof {
                assert(out.deep_view() =~~= seq![(arrival_target@, notice_text(sender@))]);
            }
        }
        push_chunks(&mut out, sender, &lines);
        proof {
            assert(out.deep_view() =~~= plan_model(reply@, arrival_target@, sender@));
        }
    } else {
        push_chunks(&mut out, arrival_target, &lines);
        proof {
            assert(out.deep_view() =~~= plan_model(reply@, arrival_target@, sender@));
        }
    }
    out
}

} // verus!
