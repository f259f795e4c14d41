//! Bounded per-identity conversation memory: a mapping from identity to an
//! ordered history of role-tagged turns, capped at `MAX_MEMORY` turns by
//! evicting the oldest turn after each insertion that overflows the cap.
use vstd::prelude::*;

verus! {

/// Capacity bound of one identity's conversation history.
pub const MAX_MEMORY: usize = 10;

/// Who spoke a turn.
#[derive(Clone, Copy, PartialEq, Eq, Structural, Debug)]
pub enum Role {
    System,
    User,
    Assistant,
}

/// One role-tagged message of a conversation. Immutable once created.
pub struct Turn {
    pub role: Role,
    pub content: String,
}

/// The mathematical value of a `Turn`.
pub struct TurnView {
    pub role: Role,
    pub content: Seq<char>,
}

impl View for Turn {
    type V = TurnView;

    open spec fn view(&self) -> TurnView {
        TurnView { role: self.role, content: self.content@ }
    }
}

impl DeepView for Turn {
    type V = TurnView;

    open spec fn deep_view(&self) -> TurnView {
        self@
    }
}

impl Turn {
    /// A fresh turn with the same role and content.
    pub fn duplicate(&self) -> (r: Turn)
        ensures
            r@ == self@,
    {
        Turn { role: self.role, content: self.content.clone() }
    }
}

/// A history after one eviction pass: if an insertion left it over the cap,
/// the oldest turn is removed.
pub open spec fn evict_oldest(h: Seq<TurnView>) -> Seq<TurnView> {
    if h.len() > MAX_MEMORY {
        h.drop_first()
    } else {
        h
    }
}

/// What recording one turn does to a history: append, then evict the oldest
/// turn if the append overflowed the cap.
pub open spec fn record_model(h: Seq<TurnView>, t: TurnView) -> Seq<TurnView> {
    evict_oldest(h.push(t))
}

/// The history reached from `h` by recording each of `inserts` in order.
pub open spec fn fold_records(h: Seq<TurnView>, inserts: Seq<TurnView>) -> Seq<TurnView>
    decreases inserts.len(),
{
    if inserts.len() == 0 {
        h
    } else {
        record_model(fold_records(h, inserts.drop_last()), inserts.last())
    }
}

/// First value stored under `id`, scanning left to right.
spec fn lookup(m: Seq<(Seq<char>, Seq<TurnView>)>, id: Seq<char>) -> Option<Seq<TurnView>>
    decreases m.len(),
{
    if m.len() == 0 {
        None
    } else if m[0].0 == id {
        Some(m[0].1)
    } else {
        lookup(m.drop_first(), id)
    }
}

proof fn lemma_lookup_at(m: Seq<(Seq<char>, Seq<TurnView>)>, i: int)
    requires
        0 <= i < m.len(),
        forall|k: int| 0 <= k < i ==> m[k].0 != m[i].0,
    ensures
        lookup(m, m[i].0) == Some(m[i].1),
    decreases m.len(),
{
    if i > 0 {
        assert(forall|k: int| 0 <= k < i - 1 ==> m.drop_first()[k] == m[k + 1]);
        lemma_lookup_at(m.drop_first(), i - 1);
    }
}

proof fn lemma_lookup_update(
    m: Seq<(Seq<char>, Seq<TurnView>)>,
    i: int,
    v: Seq<TurnView>,
    id: Seq<char>,
)
    requires
        0 <= i < m.len(),
        m[i].0 == id,
        forall|k: int| 0 <= k < i ==> m[k].0 != id,
    ensures
        lookup(m.update(i, (id, v)), id) == Some(v),
        forall|k2: Seq<char>| k2 != id ==> lookup(m.update(i, (id, v)), k2) == lookup(m, k2),
    decreases m.len(),
{
    let m2 = m.update(i, (id, v));
    if i == 0 {
        assert(m2[0].0 == id && m2[0].1 == v);
        assert(m2.drop_first() =~= m.drop_first());
        assert forall|k2: Seq<char>| k2 != id implies lookup(m2, k2) == lookup(m, k2) by {
            assert(lookup(m2, k2) == lookup(m2.drop_first(), k2));
            assert(lookup(m, k2) == lookup(m.drop_first(), k2));
        }
    } else {
        assert(m2[0] == m[0]);
        assert(m[0].0 != id);
        assert(m2.drop_first() =~= m.drop_first().update(i - 1, (id, v)));
        assert(forall|k: int| 0 <= k < i - 1 ==> m.drop_first()[k] == m[k + 1]);
        lemma_lookup_update(m.drop_first(), i - 1, v, id);
        assert(lookup(m2, id) == lookup(m2.drop_first(), id));
        assert forall|k2: Seq<char>| k2 != id implies lookup(m2, k2) == lookup(m, k2) by {
            if m[0].0 != k2 {
                assert(lookup(m2, k2) == lookup(m2.drop_first(), k2));
                assert(lookup(m, k2) == lookup(m.drop_first(), k2));
            }
        }
    }
}

proof fn lemma_lookup_push(m: Seq<(Seq<char>, Seq<TurnView>)>, v: Seq<TurnView>, id: Seq<char>)
    requires
        lookup(m, id) is None,
    ensures
        lookup(m.push((id, v)), id) == Some(v),
        forall|k2: Seq<char>| k2 != id ==> lookup(m.push((id, v)), k2) == lookup(m, k2),
    decreases m.len(),
{
    let m2 = m.push((id, v));
    if m.len() == 0 {
        assert(m2[0].0 == id && m2[0].1 == v);
        assert(m2.drop_first() =~= Seq::<(Seq<char>, Seq<TurnView>)>::empty());
        assert forall|k2: Seq<char>| k2 != id implies lookup(m2, k2) == lookup(m, k2) by {
            assert(lookup(m2, k2) == lookup(m2.drop_first(), k2));
            assert(lookup(m2.drop_first(), k2) is None);
        }
    } else {
        assert(m[0].0 != id);
        assert(m2[0] == m[0]);
        assert(m2.drop_first() =~= m.drop_first().push((id, v)));
        lemma_lookup_push(m.drop_first(), v, id);
        assert(lookup(m2, id) == lookup(m2.drop_first(), id));
        assert forall|k2: Seq<char>| k2 != id implies lookup(m2, k2) == lookup(m, k2) by {
            if m[0].0 != k2 {
                assert(lookup(m2, k2) == lookup(m2.drop_first(), k2));
                assert(lookup(m, k2) == lookup(m.drop_first(), k2));
            }
        }
    }
}

/// Mapping from identity to its bounded conversation history. Created
/// entries live for the lifetime of the store; an identity never recorded
/// has no history at all (not an empty one).
pub struct ConversationStore {
    entries: Vec<(String, Vec<Turn>)>,
}

impl ConversationStore {
    /// The history stored under `id`, if that identity was ever recorded.
    pub closed spec fn history(self, id: Seq<char>) -> Option<Seq<TurnView>> {
        lookup(self.entries.deep_view(), id)
    }

    /// Identities are distinct and every stored history respects the cap.
    pub closed spec fn wf(self) -> bool {
        &&& forall|i: int, j: int|
            0 <= i < j < self.entries@.len() ==> self.entries@[i].0@ != self.entries@[j].0@
        &&& forall|i: int|
            0 <= i < self.entries@.len() ==> #[trigger] self.entries@[i].1@.len() <= MAX_MEMORY
    }

    /// An empty store: no identity has a history.
    pub fn new() -> (r: ConversationStore)
        ensures
            r.wf(),
            forall|id: Seq<char>| r.history(id) is None,
    {
        let r = ConversationStore { entries: Vec::new() };
        proof {
            assert(r.entries.deep_view() =~= Seq::<(Seq<char>, Seq<TurnView>)>::empty());
        }
        r
    }

    /// Appends a turn to `identity`'s history, creating the history if the
    /// identity is new, then evicts the oldest turn if the append overflowed
    /// the cap. Histories of all other identities are untouched.
    pub fn record(&mut self, identity: &str, role: Role, content: &str)
        requires
            old(self).wf(),
        ensures
            final(self).wf(),
            final(self).history(identity@) == Some(
                record_model(
                    match old(self).history(identity@) {
                        Some(h) => h,
                        None => Seq::empty(),
                    },
                    TurnView { role, content: content@ },
                ),
            ),
            forall|k: Seq<char>|
                k != identity@ ==> final(self).history(k) == old(self).history(k),
    {
        let turn = Turn { role, content: content.to_owned() };
        let ghost m = self.entries.deep_view();
        proof {
            lemma_entries_view(self.entries);
        }
        let found = find_index(&self.entries, identity);
        if let Some(i) = found {
            // existing identity: append in place, then evict if over the cap
            proof {
                assert(m[i as int].0 == identity@);
                assert(forall|k: int| 0 <= k < i ==> m[k].0 != identity@);
                lemma_lookup_at(m, i as int);
            }
            let ghost old_hist = self.entries@[i as int].1.deep_view();
            let entry = &mut self.entries[i];
            entry.1.push(turn);
            if entry.1.len() > MAX_MEMORY {
                entry.1.remove(0);
            }
            proof {
                let t = TurnView { role, content: content@ };
                lemma_entries_view(self.entries);
                assert(entry.1.deep_view() =~= record_model(old_hist, t));
                assert(self.entries.deep_view() =~= m.update(
                    i as int,
                    (identity@, record_model(old_hist, t)),
                ));
                lemma_lookup_update(m, i as int, record_model(old_hist, t), identity@);
            }
        } else {
            // first contact from this identity: a fresh one-turn history
            proof {
                assert(forall|k: int| 0 <= k < m.len() ==> m[k].0 != identity@);
                if lookup(m, identity@) is Some {
                    lemma_lookup_at_some(m, identity@);
                }
            }
            let mut hist: Vec<Turn> = Vec::new();
            hist.push(turn);
            let ghost hv = hist.deep_view();
            self.entries.push((identity.to_owned(), hist));
            proof {
                let t = TurnView { role, content: content@ };
                lemma_entries_view(self.entries);
                assert(hv =~= seq![t]);
                assert(record_model(Seq::empty(), t) =~= seq![t]);
                assert(self.entries.deep_view() =~= m.push((identity@, hv)));
                lemma_lookup_push(m, hv, identity@);
            }
        }
    }

    /// Read-only snapshot of `identity`'s history; nothing (not an empty
    /// sequence) when the identity was never recorded.
    pub fn history_of(&self, identity: &str) -> (r: Option<&Vec<Turn>>)
        requires
            self.wf(),
        ensures
            match r {
                Some(v) => self.history(identity@) == Some(v.deep_view()) && v@.len()
                    <= MAX_MEMORY,
                None => self.history(identity@) is None,
            },
    {
        let ghost m = self.entries.deep_view();
        proof {
            lemma_entries_view(self.entries);
        }
        let found = find_index(&self.entries, identity);
        if let Some(i) = found {
            proof {
                lemma_lookup_at(m, i as int);
            }
            Some(&self.entries[i].1)
        } else {
            proof {
                assert(forall|k: int| 0 <= k < m.len() ==> m[k].0 != identity@);
                if lookup(m, identity@) is Some {
                    lemma_lookup_at_some(m, identity@);
                }
            }
            None
        }
    }
}

/// The element-wise reading of an entry vector's mathematical value.
proof fn lemma_entries_view(entries: Vec<(String, Vec<Turn>)>)
    ensures
        entries.deep_view().len() == entries@.len(),
        forall|i: int|
            0 <= i < entries@.len() ==> #[trigger] entries.deep_view()[i] == (
                entries@[i].0@,
                entries@[i].1.deep_view(),
            ),
{
}

/// First index whose identity equals `identity`, if any.
fn find_index(entries: &Vec<(String, Vec<Turn>)>, identity: &str) -> (r: Option<usize>)
    ensures
        match r {
            Some(i) => i < entries@.len() && entries@[i as int].0@ == identity@ && forall|k: int|
                0 <= k < i ==> entries@[k].0@ != identity@,
            None => forall|k: int| 0 <= k < entries@.len() ==> entries@[k].0@ != identity@,
        },
{
    let n = entries.len();
    let mut i: usize = 0;
    while i < n
        invariant
            n == entries@.len(),
            0 <= i <= n,
            forall|k: int| 0 <= k < i ==> entries@[k].0@ != identity@,
        decreases n - i,
    {
        if string_eq_str(&entries[i].0, identity) {
            return Some(i);
        }
        i = i + 1;
    }
    None
}

/// If a lookup succeeds, some index holds the key.
proof fn lemma_lookup_at_some(m: Seq<(Seq<char>, Seq<TurnView>)>, id: Seq<char>)
    requires
        lookup(m, id) is Some,
    ensures
        exists|i: int| 0 <= i < m.len() && m[i].0 == id,
    decreases m.len(),
{
    if m.len() > 0 && m[0].0 != id {
        lemma_lookup_at_some(m.drop_first(), id);
        let i = choose|i: int| 0 <= i < m.drop_first().len() && m.drop_first()[i].0 == id;
        assert(m[i + 1].0 == id);
    }
}

/// Character-for-character comparison of a stored identity with a query.
fn string_eq_str(a: &String, b: &str) -> (r: bool)
    ensures
        r == (a@ == b@),
{
    crate::text::str_eq(a.as_str(), b)
}

/// Recording a bounded sequence of turns keeps the history within the cap
/// and retains exactly the most recent turns, in insertion order: starting
/// from a history within the cap, after recording `inserts` one by one the
/// history is the longest suffix of `h + inserts` that fits in `MAX_MEMORY`.
pub proof fn lemma_bounded_recent(h: Seq<TurnView>, inserts: Seq<TurnView>)
    requires
        h.len() <= MAX_MEMORY,
    ensures
        fold_records(h, inserts).len() <= MAX_MEMORY,
        fold_records(h, inserts) == ({
            let all = h + inserts;
            let kept = if all.len() <= MAX_MEMORY {
                all.len() as int
            } else {
                MAX_MEMORY as int
            };
            all.subrange(all.len() - kept, all.len() as int)
        }),
    decreases inserts.len(),
{
    let all = h + inserts;
    if inserts.len() == 0 {
        assert(all =~= h);
        assert(all.subrange(0, all.len() as int) =~= h);
    } else {
        let prior = inserts.drop_last();
        lemma_bounded_recent(h, prior);
        let prev = fold_records(h, prior);
        let all0 = h + prior;
        let kept0 = if all0.len() <= MAX_MEMORY {
            all0.len() as int
        } else {
            MAX_MEMORY as int
        };
        assert(all =~= all0.push(inserts.last()));
        assert(prev.push(inserts.last()) =~= all.subrange(
            all.len() - (kept0 + 1),
            all.len() as int,
        ));
        let kept = if all.len() <= MAX_MEMORY {
            all.len() as int
        } else {
            MAX_MEMORY as int
        };
        if kept0 + 1 > MAX_MEMORY {
            assert(fold_records(h, inserts) == prev.push(inserts.last()).drop_first());
            assert(prev.push(inserts.last()).drop_first() =~= all.subrange(
                all.len() - kept,
                all.len() as int,
            ));
        } else {
            assert(fold_records(h, inserts) == prev.push(inserts.last()));
            assert(kept == kept0 + 1);
        }
    }
}

} // verus!
