//! The permanent-denial ledger: an append-only text log, one artifact path
//! per line, loaded once per run into an in-memory set.
//!
//! The library parses the log text and decides membership and what each
//! appended line holds; opening, reading and flushing the file is the
//! unverified shell's job.

use vstd::prelude::*;

verus! {

/// Length of the prefix of `s` before its first line feed (all of `s` when
/// it has none).
pub open spec fn line_break(s: Seq<char>) -> nat
    decreases s.len(),
{
    if s.len() == 0 {
        0
    } else if s[0] == '\n' {
        0
    } else {
        (1 + line_break(s.skip(1))) as nat
    }
}

/// Drop one trailing carriage return.
pub open spec fn chomp_cr(s: Seq<char>) -> Seq<char> {
    if s.len() > 0 && s[s.len() - 1] == '\r' {
        s.take(s.len() - 1)
    } else {
        s
    }
}

/// The lines of `s`: split at line feeds, with a carriage return stripped
/// from the end of a line-feed-terminated line, and an optional final line
/// ending yielding no empty last line.
pub open spec fn split_lines(s: Seq<char>) -> Seq<Seq<char>>
    decreases s.len(),
{
    if s.len() == 0 {
        Seq::empty()
    } else {
        let k = line_break(s);
        if k >= s.len() {
            seq![s]
        } else {
            seq![chomp_cr(s.take(k as int))] + split_lines(s.skip(k as int + 1))
        }
    }
}

proof fn lemma_line_break_bounds(s: Seq<char>)
    ensures
        0 <= line_break(s) <= s.len(),
    decreases s.len(),
{
    if s.len() > 0 && s[0] != '\n' {
        lemma_line_break_bounds(s.skip(1));
    }
}

proof fn lemma_line_break_at(s: Seq<char>, k: int)
    requires
        0 <= k <= s.len(),
        forall|i: int| 0 <= i < k ==> s[i] != '\n',
        k < s.len() ==> s[k] == '\n',
    ensures
        line_break(s) == k,
    decreases s.len(),
{
    if s.len() == 0 {
    } else if s[0] == '\n' {
    } else {
        assert(k > 0);
        lemma_line_break_at(s.skip(1), k - 1);
    }
}

/// Unfolds `split_lines` at an arbitrary suffix, for the parser's loop.
proof fn lemma_split_lines_step(s: Seq<char>, pos: int, k: int)
    requires
        0 <= pos <= k <= s.len(),
        pos < s.len(),
        forall|i: int| pos <= i < k ==> s[i] != '\n',
        k < s.len() ==> s[k] == '\n',
    ensures
        k == s.len() ==> split_lines(s.skip(pos)) == seq![s.subrange(pos, k)],
        k < s.len() ==> split_lines(s.skip(pos)) == seq![
            chomp_cr(s.subrange(pos, k)),
        ] + split_lines(s.skip(k + 1)),
{
    let t = s.skip(pos);
    assert(t.len() == s.len() - pos);
    assert(forall|i: int| 0 <= i < k - pos ==> t[i] == s[pos + i]);
    lemma_line_break_at(t, k - pos);
    if k == s.len() {
        assert(t =~= s.subrange(pos, k));
    } else {
        assert(t.take(k - pos) =~= s.subrange(pos, k));
        assert(t.skip(k - pos + 1) =~= s.skip(k + 1));
    }
}

/// Parse the ledger text into its lines.
pub fn parse_lines(text: &str) -> (r: Vec<String>)
    ensures
        r.deep_view() == split_lines(text@),
{
    let n = text.unicode_len();
    let mut out: Vec<String> = Vec::new();
    let mut pos: usize = 0;
    proof {
        assert(out.deep_view() =~= Seq::<Seq<char>>::empty());
        assert(text@.skip(0) =~= text@);
    }
    while pos < n
        invariant
            pos <= n,
            n == text@.len(),
            out.deep_view() + split_lines(text@.skip(pos as int)) =~= split_lines(text@),
        decreases n - pos,
    {
        let mut k = pos;
        while k < n && text.get_char(k) != '\n'
            invariant
                pos <= k <= n,
                n == text@.len(),
                forall|i: int| pos <= i < k ==> text@[i] != '\n',
            decreases n - k,
        {
            k = k + 1;
        }
        let end = if k < n && k > pos && text.get_char(k - 1) == '\r' {
            k - 1
        } else {
            k
        };
        let line = text.substring_char(pos, end).to_owned();
        let ghost dv = out.deep_view();
        proof {
            lemma_split_lines_step(text@, pos as int, k as int);
        }
        out.push(line);
        proof {
            assert(out.deep_view() =~= dv.push(line@));
        }
        if k < n {
            proof {
                assert(line@ =~= chomp_cr(text@.subrange(pos as int, k as int)));
                assert(split_lines(text@.skip(pos as int)) == seq![line@] + split_lines(
                    text@.skip(k as int + 1),
                ));
                assert(dv.push(line@) + split_lines(text@.skip(k as int + 1)) =~= dv + split_lines(
                    text@.skip(pos as int),
                ));
            }
            pos = k + 1;
        } else {
            proof {
                assert(line@ =~= text@.subrange(pos as int, k as int));
                assert(split_lines(text@.skip(pos as int)) == seq![line@]);
                assert(text@.skip(n as int) =~= Seq::<char>::empty());
                assert(dv.push(line@) + split_lines(text@.skip(n as int)) =~= dv + split_lines(
                    text@.skip(pos as int),
                ));
            }
            pos = n;
        }
    }
    proof {
        assert(text@.skip(pos as int) =~= Seq::<char>::empty());
        assert(out.deep_view() =~= out.deep_view() + split_lines(text@.skip(pos as int)));
    }
    out
}

/// The set of artifact paths the upstream server has permanently denied.
pub struct ForbiddenSet {
    paths: Vec<String>,
}

impl ForbiddenSet {
    /// The paths as a sequence; membership alone is meaningful.
    pub closed spec fn view(&self) -> Seq<Seq<char>> {
        self.paths.deep_view()
    }

    /// Load the set from the ledger's text: one path per line.
    pub fn load(text: &str) -> (r: ForbiddenSet)
        ensures
            r@ == split_lines(text@),
    {
        ForbiddenSet { paths: parse_lines(text) }
    }

    /// Whether `path` was ever recorded as denied.
    pub fn contains(&self, path: &str) -> (r: bool)
        ensures
            r == self@.contains(path@),
    {
        let owned = path.to_owned();
        let n = self.paths.len();
        let mut i: usize = 0;
        while i < n
            invariant
                i <= n,
                n == self.paths.len(),
                owned@ == path@,
                self@ == self.paths.deep_view(),
                forall|j: int| 0 <= j < i ==> self.paths.deep_view()[j] != path@,
            decreases n - i,
        {
            if self.paths[i] == owned {
                proof {
                    assert(self@[i as int] == path@);
                }
                return true;
            }
            i = i + 1;
        }
        proof {
            assert(forall|j: int| 0 <= j < self@.len() ==> self@[j] != path@);
        }
        false
    }

    /// Record one more denied path. The set only grows: everything already
    /// recorded stays recorded.
    pub fn insert(&mut self, path: String)
        ensures
            final(self)@ == old(self)@.push(path@),
    {
        self.paths.push(path);
        proof {
            assert(self@ =~= old(self)@.push(path@));
        }
    }

    pub fn len(&self) -> (r: usize)
        ensures
            r == self@.len(),
    {
        self.paths.len()
    }
}

/// The line appended to the ledger file for one denied path.
pub fn ledger_line(path: &str) -> (r: String)
    ensures
        r@ == path@ + "\n"@,
{
    let mut s = path.to_owned();
    s.append("\n");
    s
}

/// A freshly recorded path is a line of the grown ledger text: appending
/// `ledger_line(path)` to text that ends with a line feed (or is empty)
/// appends exactly one line holding `path`, provided `path` itself holds no
/// line break.
pub proof fn lemma_ledger_round_trip(text: Seq<char>, path: Seq<char>)
    requires
        text.len() == 0 || text[text.len() - 1] == '\n',
        forall|i: int| 0 <= i < path.len() ==> path[i] != '\n' && path[i] != '\r',
    ensures
        split_lines(text + path + "\n"@) == split_lines(text).push(path),
    decreases text.len(),
{
    reveal_strlit("\n");
    assert(("\n"@).len() == 1);
    assert(("\n"@)[0] == '\n');
    let s = text + path + "\n"@;
    assert(s =~= text + (path + "\n"@));
    if text.len() == 0 {
        let q = path + "\n"@;
        assert(s =~= q);
        assert(q[path.len() as int] == '\n');
        lemma_line_break_at(q, path.len() as int);
        let k = line_break(q) as int;
        assert(k == path.len());
        assert(k < q.len());
        assert(q.take(k) =~= path);
        assert(chomp_cr(q.take(k)) == path);
        assert(q.skip(k + 1) =~= Seq::<char>::empty());
        assert(split_lines(q) == seq![chomp_cr(q.take(k))] + split_lines(q.skip(k + 1)));
        assert(split_lines(q) =~= seq![path]);
        assert(split_lines(text).push(path) =~= seq![path]);
    } else {
        lemma_line_break_prefix(text, path + "\n"@);
        lemma_line_break_bounds(text);
        let k = line_break(text) as int;
        assert(line_break(s) == k);
        assert(k < text.len());
        assert(s.len() > 0);
        assert(k < s.len());
        assert forall|i: int| 0 <= i < k implies s[i] == text[i] by {
            assert(s[i] == (text + path)[i]);
            assert((text + path)[i] == text[i]);
        }
        assert(s.take(k) =~= text.take(k));
        let r = text.skip(k + 1) + path + "\n"@;
        assert forall|i: int| 0 <= i < s.len() - (k + 1) implies s.skip(k + 1)[i] == r[i] by {
            assert(s.skip(k + 1)[i] == s[k + 1 + i]);
            if k + 1 + i < text.len() {
                assert(s[k + 1 + i] == (text + path)[k + 1 + i]);
                assert((text + path)[k + 1 + i] == text[k + 1 + i]);
                assert(r[i] == (text.skip(k + 1) + path)[i]);
                assert((text.skip(k + 1) + path)[i] == text.skip(k + 1)[i]);
                assert(text.skip(k + 1)[i] == text[k + 1 + i]);
            } else if k + 1 + i < text.len() + path.len() {
                assert(s[k + 1 + i] == (text + path)[k + 1 + i]);
                assert((text + path)[k + 1 + i] == path[k + 1 + i - text.len()]);
                assert(r[i] == (text.skip(k + 1) + path)[i]);
                assert((text.skip(k + 1) + path)[i] == path[i - (text.len() - (k + 1))]);
            } else {
                assert(s[k + 1 + i] == ("\n"@)[k + 1 + i - text.len() - path.len()]);
                assert(r[i] == ("\n"@)[i - (text.len() - (k + 1)) - path.len()]);
            }
        }
        assert(s.skip(k + 1) =~= text.skip(k + 1) + path + "\n"@);
        if text.len() - (k + 1) > 0 {
            assert(text.skip(k + 1)[text.len() - (k + 1) - 1] == text[text.len() - 1]);
        } else {
            assert(text.skip(k + 1) =~= Seq::<char>::empty());
        }
        lemma_ledger_round_trip(text.skip(k + 1), path);
        assert(split_lines(s) == seq![chomp_cr(s.take(k))] + split_lines(s.skip(k + 1)));
        assert(split_lines(s.skip(k + 1)) == split_lines(text.skip(k + 1)).push(path));
        assert(split_lines(text) == seq![chomp_cr(text.take(k))] + split_lines(text.skip(k + 1)));
        assert(split_lines(s) =~= split_lines(text).push(path));
    }
}

/// A non-empty text's first line break is unchanged by appending more text,
/// when the text contains a line feed.
proof fn lemma_line_break_prefix(text: Seq<char>, rest: Seq<char>)
    requires
        text.len() > 0,
        text[text.len() - 1] == '\n',
    ensures
        line_break(text + rest) == line_break(text),
        line_break(text) < text.len(),
    decreases text.len(),
{
    let s = text + rest;
    if text[0] == '\n' {
        assert(s[0] == '\n');
    } else {
        assert(text.len() > 1);
        lemma_line_break_prefix(text.skip(1), rest);
        assert(s.skip(1) =~= text.skip(1) + rest);
    }
}

} // verus!
