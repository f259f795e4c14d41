//! Text primitives for the relay: splitting a reply into logical lines and
//! splitting each line into protocol-safe chunks, measured in characters.
use vstd::prelude::*;

verus! {

/// Maximum characters allowed in one protocol message.
pub const CHUNK_LIMIT: usize = 500;

/// Index of the first newline in `s`, or `s.len()` when `s` has none.
pub open spec fn first_newline(s: Seq<char>) -> int
    decreases s.len(),
{
    if s.len() == 0 {
        0
    } else if s[0] == '\n' {
        0
    } else {
        1 + first_newline(s.drop_first())
    }
}

/// A newline-free prefix of length `m` that is followed by a newline (or by
/// the end of the text) pins `first_newline` down to `m`.
proof fn lemma_first_newline_is(s: Seq<char>, m: int)
    requires
        0 <= m <= s.len(),
        forall|k: int| 0 <= k < m ==> s[k] != '\n',
        m < s.len() ==> s[m] == '\n',
    ensures
        first_newline(s) == m,
    decreases s.len(),
{
    if m > 0 {
        assert(s[0] != '\n');
        assert(forall|k: int| 0 <= k < m - 1 ==> s.drop_first()[k] == s[k + 1]);
        lemma_first_newline_is(s.drop_first(), m - 1);
    }
}

/// A carriage return directly before a line ending is not part of the line.
pub open spec fn strip_cr(line: Seq<char>) -> Seq<char> {
    if line.len() > 0 && line.last() == '\r' {
        line.drop_last()
    } else {
        line
    }
}

/// The logical lines of a reply: split at `\n` (a `\r` directly before the
/// `\n` belongs to the ending, not the line), the final ending optional,
/// empty lines kept. Empty text has no lines.
pub open spec fn line_split(s: Seq<char>) -> Seq<Seq<char>>
    decreases s.len(),
{
    if s.len() == 0 {
        Seq::empty()
    } else {
        let i = first_newline(s);
        if 0 <= i < s.len() {
            seq![strip_cr(s.subrange(0, i))] + line_split(s.subrange(i + 1, s.len() as int))
        } else {
            seq![s]
        }
    }
}

/// The chunks of one line: consecutive runs of at most `limit` characters,
/// split on exact character counts. A line of at most `limit` characters is
/// one chunk; in particular an empty line is one empty chunk.
pub open spec fn chunk_split(line: Seq<char>, limit: int) -> Seq<Seq<char>>
    decreases line.len(),
{
    if limit <= 0 || line.len() <= limit {
        seq![line]
    } else {
        seq![line.subrange(0, limit)] + chunk_split(
            line.subrange(limit, line.len() as int),
            limit,
        )
    }
}

/// Chunking loses and reorders nothing: every line yields at least one
/// chunk, the chunks concatenate back to the line exactly, no chunk exceeds
/// the limit, and every chunk before the last is exactly full.
pub proof fn lemma_chunks_preserve_content(line: Seq<char>, limit: int)
    requires
        limit > 0,
    ensures
        chunk_split(line, limit).len() >= 1,
        chunk_split(line, limit).flatten() == line,
        forall|i: int|
            0 <= i < chunk_split(line, limit).len() ==> #[trigger] chunk_split(line, limit)[i].len()
                <= limit,
        forall|i: int|
            0 <= i < chunk_split(line, limit).len() - 1 ==> #[trigger] chunk_split(
                line,
                limit,
            )[i].len() == limit,
    decreases line.len(),
{
    let cs = chunk_split(line, limit);
    if line.len() <= limit {
        assert(cs =~= seq![line]);
        cs.lemma_flatten_one_element();
    } else {
        let pre = line.subrange(0, limit);
        let suf = line.subrange(limit, line.len() as int);
        lemma_chunks_preserve_content(suf, limit);
        let tail = chunk_split(suf, limit);
        assert(cs =~= seq![pre] + tail);
        assert(cs[0] == pre);
        assert(cs.drop_first() =~= tail);
        assert(cs.flatten() == pre + tail.flatten());
        assert(pre + suf =~= line);
        assert(forall|i: int| 1 <= i < cs.len() ==> cs[i] == tail[i - 1]);
    }
}

/// Relies on `Iterator::collect` for `Vec<char>`: collecting `str::chars`
/// yields exactly the characters of the string, in order.
#[verifier::external_body]
pub(crate) fn chars_of(s: &str) -> (r: Vec<char>)
    ensures
        r@ == s@,
{
    s.chars().collect()
}

/// Relies on `String`'s `FromIterator<char>`: collecting characters builds
/// the string holding exactly those characters, in order.
#[verifier::external_body]
pub(crate) fn string_of_chars(v: &Vec<char>) -> (r: String)
    ensures
        r@ == v@,
{
    v.iter().collect()
}

/// Character-for-character string comparison.
pub fn str_eq(a: &str, b: &str) -> (r: bool)
    ensures
        r == (a@ == b@),
{
    let av = chars_of(a);
    let bv = chars_of(b);
    if av.len() != bv.len() {
        proof {
            assert(a@.len() != b@.len());
        }
        return false;
    }
    let n = av.len();
    let mut i: usize = 0;
    while i < n
        invariant
            n == av@.len() == bv@.len(),
            av@ == a@ && bv@ == b@,
            0 <= i <= n,
            forall|k: int| 0 <= k < i ==> av@[k] == bv@[k],
        decreases n - i,
    {
        if av[i] != bv[i] {
            return false;
        }
        i = i + 1;
    }
    proof {
        assert(a@ =~= b@);
    }
    true
}

/// Copies `v[from..to]` into a fresh vector.
fn copy_range(v: &Vec<char>, from: usize, to: usize) -> (r: Vec<char>)
    requires
        from <= to <= v.len(),
    ensures
        r@ == v@.subrange(from as int, to as int),
{
    let mut r: Vec<char> = Vec::new();
    let mut k: usize = from;
    while k < to
        invariant
            from <= k <= to <= v.len(),
            r@ == v@.subrange(from as int, k as int),
        decreases to - k,
    {
        r.push(v[k]);
        k = k + 1;
        proof {
            assert(r@ =~= v@.subrange(from as int, k as int));
        }
    }
    r
}

/// Splits `text` into its logical lines, exactly as `line_split` describes.
pub fn split_lines(text: &Vec<char>) -> (r: Vec<Vec<char>>)
    ensures
        r.deep_view() == line_split(text@),
{
    let n = text.len();
    let mut r: Vec<Vec<char>> = Vec::new();
    let mut pos: usize = 0;
    proof {
        assert(text@.subrange(0, n as int) =~= text@);
        assert(r.deep_view() =~= Seq::<Seq<char>>::empty());
        assert(r.deep_view() + line_split(text@.subrange(0, n as int)) =~~= line_split(text@));
    }
    while pos < n
        invariant
            pos <= n == text.len(),
            line_split(text@) == r.deep_view() + line_split(
                text@.subrange(pos as int, n as int),
            ),
        decreases n - pos,
    {
        let ghost suffix = text@.subrange(pos as int, n as int);
        // scan for the end of the current line
        let mut j: usize = pos;
        while j < n && text[j] != '\n'
            invariant
                pos <= j <= n == text.len(),
                forall|k: int| pos <= k < j ==> text@[k] != '\n',
            decreases n - j,
        {
            j = j + 1;
        }
        proof {
            assert(forall|k: int| 0 <= k < j - pos ==> suffix[k] == text@[k + pos]);
            lemma_first_newline_is(suffix, j - pos);
        }
        if j == n {
            // no further line ending: the remainder is the last line
            let line = copy_range(text, pos, n);
            proof {
                assert(line@ =~= suffix);
            }
            let ghost old_r = r.deep_view();
            r.push(line);
            proof {
                assert(line_split(suffix) =~= seq![suffix]);
                assert(r.deep_view() =~~= old_r.push(line@));
                assert(old_r.push(line@) =~= old_r + seq![line@]);
            }
            pos = n;
            proof {
                assert(line_split(text@.subrange(pos as int, n as int)) =~= Seq::<
                    Seq<char>,
                >::empty());
                assert(line_split(text@) =~~= r.deep_view());
            }
        } else {
            // line ending at j; drop a carriage return directly before it
            let end = if j > pos && text[j - 1] == '\r' {
                j - 1
            } else {
                j
            };
            let line = copy_range(text, pos, end);
            proof {
                assert(suffix.subrange(0, j - pos) =~= text@.subrange(pos as int, j as int));
                assert(strip_cr(suffix.subrange(0, j - pos)) =~= text@.subrange(
                    pos as int,
                    end as int,
                ));
                assert(line@ == strip_cr(suffix.subrange(0, j - pos)));
            }
            let ghost old_r = r.deep_view();
            r.push(line);
            proof {
                assert(r.deep_view() =~~= old_r.push(line@));
                assert(suffix.subrange(j - pos + 1, suffix.len() as int) =~= text@.subrange(
                    j + 1,
                    n as int,
                ));
                assert(line_split(suffix) == seq![strip_cr(suffix.subrange(0, j - pos))]
                    + line_split(text@.subrange(j + 1, n as int)));
                assert(old_r.push(line@) =~= old_r + seq![line@]);
            }
            pos = j + 1;
            proof {
                assert(r.deep_view() + line_split(text@.subrange(pos as int, n as int))
                    =~~= line_split(text@));
            }
        }
    }
    proof {
        assert(line_split(text@.subrange(pos as int, n as int)) =~= Seq::<Seq<char>>::empty());
        assert(r.deep_view() =~~= line_split(text@));
    }
    r
}

/// Splits one line into chunks of at most `limit` characters, exactly as
/// `chunk_split` describes.
pub fn chunk_line(line: &Vec<char>, limit: usize) -> (r: Vec<Vec<char>>)
    requires
        limit > 0,
    ensures
        r.deep_view() == chunk_split(line@, limit as int),
{
    let n = line.len();
    let mut r: Vec<Vec<char>> = Vec::new();
    let mut pos: usize = 0;
    proof {
        assert(line@.subrange(0, n as int) =~= line@);
        assert(r.deep_view() =~= Seq::<Seq<char>>::empty());
        assert(r.deep_view() + chunk_split(line@.subrange(0, n as int), limit as int)
            =~~= chunk_split(line@, limit as int));
    }
    while n - pos > limit
        invariant
            pos <= n == line.len(),
            limit > 0,
            chunk_split(line@, limit as int) == r.deep_view() + chunk_split(
                line@.subrange(pos as int, n as int),
                limit as int,
            ),
        decreases n - pos,
    {
        let ghost suffix = line@.subrange(pos as int, n as int);
        let chunk = copy_range(line, pos, pos + limit);
        let ghost old_r = r.deep_view();
        r.push(chunk);
        proof {
            assert(r.deep_view() =~~= old_r.push(chunk@));
            assert(suffix.subrange(0, limit as int) =~= chunk@);
            assert(suffix.subrange(limit as int, suffix.len() as int) =~= line@.subrange(
                pos + limit,
                n as int,
            ));
            assert(chunk_split(suffix, limit as int) == seq![chunk@] + chunk_split(
                line@.subrange(pos + limit, n as int),
                limit as int,
            ));
            assert(old_r.push(chunk@) =~= old_r + seq![chunk@]);
        }
        pos = pos + limit;
        proof {
            assert(r.deep_view() + chunk_split(line@.subrange(pos as int, n as int), limit as int)
                =~~= chunk_split(line@, limit as int));
        }
    }
    let rest = copy_range(line, pos, n);
    let ghost old_r = r.deep_view();
    r.push(rest);
    proof {
        assert(r.deep_view() =~~= old_r.push(rest@));
        assert(chunk_split(line@.subrange(pos as int, n as int), limit as int) =~= seq![rest@]);
        assert(old_r.push(rest@) =~= old_r + seq![rest@]);
        assert(r.deep_view() =~~= chunk_split(line@, limit as int));
    }
    r
}

} // verus!
