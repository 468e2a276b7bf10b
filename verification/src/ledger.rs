use vstd::prelude::*;
use crate::chars::{str_to_chars, chars_to_string, push_all};

verus! {

/// The characters before the first newline, or the whole text when it has
/// none.
pub open spec fn up_to_newline(s: Seq<char>) -> Seq<char>
    decreases s.len(),
{
    if s.len() == 0 || s[0] == '\n' {
        Seq::<char>::empty()
    } else {
        seq![s[0]] + up_to_newline(s.drop_first())
    }
}

/// The characters after the first newline, or nothing when it has none.
pub open spec fn after_newline(s: Seq<char>) -> Seq<char>
    decreases s.len(),
{
    if s.len() == 0 {
        Seq::<char>::empty()
    } else if s[0] == '\n' {
        s.drop_first()
    } else {
        after_newline(s.drop_first())
    }
}

/// A line with a trailing carriage return dropped.
pub open spec fn strip_cr(s: Seq<char>) -> Seq<char> {
    if s.len() > 0 && s.last() == '\r' {
        s.drop_last()
    } else {
        s
    }
}

proof fn lemma_after_newline_len(s: Seq<char>)
    requires
        s.len() > 0,
    ensures
        after_newline(s).len() < s.len(),
    decreases s.len(),
{
    if s[0] == '\n' {
    } else if s.len() == 1 {
        assert(after_newline(s.drop_first()).len() == 0);
    } else {
        lemma_after_newline_len(s.drop_first());
    }
}

/// The lines of a text: split at `\n`, each stripped of a trailing `\r`,
/// with no empty line after a final newline.
pub open spec fn spec_lines(s: Seq<char>) -> Seq<Seq<char>>
    decreases s.len(),
    via spec_lines_decreases
{
    if s.len() == 0 {
        Seq::<Seq<char>>::empty()
    } else {
        seq![strip_cr(up_to_newline(s))] + spec_lines(after_newline(s))
    }
}

#[via_fn]
proof fn spec_lines_decreases(s: Seq<char>) {
    if s.len() > 0 {
        lemma_after_newline_len(s);
    }
}

/// The lines joined with single newlines, no trailing newline.
pub open spec fn spec_join_lines(lines: Seq<Seq<char>>) -> Seq<char>
    decreases lines.len(),
{
    if lines.len() == 0 {
        Seq::<char>::empty()
    } else if lines.len() == 1 {
        lines[0]
    } else {
        lines[0] + seq!['\n'] + spec_join_lines(lines.drop_first())
    }
}

proof fn lemma_split_at_newline(s: Seq<char>, j: int)
    requires
        0 <= j <= s.len(),
        forall|k: int| 0 <= k < j ==> s[k] != '\n',
        j == s.len() || s[j] == '\n',
    ensures
        up_to_newline(s) == s.subrange(0, j),
        after_newline(s) == if j == s.len() {
            Seq::<char>::empty()
        } else {
            s.skip(j + 1)
        },
    decreases j,
{
    if s.len() == 0 {
        assert(up_to_newline(s) =~= s.subrange(0, j));
    } else if j == 0 {
        if s[0] == '\n' {
            assert(s.drop_first() =~= s.skip(1));
            assert(up_to_newline(s) =~= s.subrange(0, 0));
        } else {
            assert(up_to_newline(s) =~= s.subrange(0, 0) + up_to_newline(s));
            assert(j == s.len());
        }
    } else {
        if j < s.len() {
            assert(s.drop_first()[j - 1] == s[j]);
        }
        assert(forall|k: int| 0 <= k < j - 1 ==> s.drop_first()[k] == s[k + 1]);
        lemma_split_at_newline(s.drop_first(), j - 1);
        assert(up_to_newline(s) == seq![s[0]] + up_to_newline(s.drop_first()));
        assert(seq![s[0]] + s.drop_first().subrange(0, j - 1) =~= s.subrange(0, j));
        if j < s.len() {
            assert(s.drop_first().skip(j) =~= s.skip(j + 1));
        }
    }
}

/// Splits a text into its lines: at each `\n`, dropping a trailing `\r`
/// from every line, yielding nothing after a final newline.
pub fn split_lines(text: &str) -> (r: Vec<String>)
    ensures
        r@.map_values(|s: String| s@) == spec_lines(text@),
{
    let v = str_to_chars(text);
    let n = v.len();
    let mut out: Vec<String> = Vec::new();
    let mut cur: Vec<char> = Vec::new();
    let mut line_start: usize = 0;
    let mut i: usize = 0;
    proof {
        assert(v@.skip(0) =~= v@);
    }
    while i < n
        invariant
            line_start <= i <= n,
            n == v@.len(),
            cur@ == v@.subrange(line_start as int, i as int),
            forall|k: int| line_start <= k < i ==> v@[k] != '\n',
            spec_lines(v@) == out@.map_values(|s: String| s@) + spec_lines(
                v@.skip(line_start as int),
            ),
        decreases n - i,
    {
        let ghost pre = out@.map_values(|s: String| s@);
        let c = v[i];
        if c == '\n' {
            let mut line = cur;
            if line.len() > 0 && line[line.len() - 1] == '\r' {
                let _ = line.pop();
                proof {
                    assert(line@ =~= strip_cr(v@.subrange(line_start as int, i as int)));
                }
            }
            proof {
                let tail = v@.skip(line_start as int);
                assert(forall|k: int|
                    0 <= k < i - line_start ==> tail[k] == v@[line_start + k]);
                lemma_split_at_newline(tail, i - line_start);
                assert(up_to_newline(tail) =~= v@.subrange(line_start as int, i as int));
                assert(after_newline(tail) =~= v@.skip(i as int + 1));
                assert(line@ == strip_cr(up_to_newline(tail)));
            }
            out.push(chars_to_string(&line));
            cur = Vec::new();
            line_start = i + 1;
            proof {
                assert(out@.map_values(|s: String| s@) =~= pre + seq![line@]);
                assert(pre + (seq![line@] + spec_lines(v@.skip(line_start as int))) =~= (pre
                    + seq![line@]) + spec_lines(v@.skip(line_start as int)));
                assert(cur@ =~= v@.subrange(line_start as int, line_start as int));
            }
        } else {
            cur.push(c);
            proof {
                assert(cur@ =~= v@.subrange(line_start as int, i as int + 1));
            }
        }
        i = i + 1;
    }
    if cur.len() > 0 {
        let mut line = cur;
        if line[line.len() - 1] == '\r' {
            let _ = line.pop();
            proof {
                assert(line@ =~= strip_cr(v@.subrange(line_start as int, n as int)));
            }
        }
        proof {
            let tail = v@.skip(line_start as int);
            assert(forall|k: int| 0 <= k < n - line_start ==> tail[k] == v@[line_start + k]);
            lemma_split_at_newline(tail, n - line_start);
            assert(up_to_newline(tail) =~= v@.subrange(line_start as int, n as int));
            assert(tail.len() > 0);
            assert(spec_lines(Seq::<char>::empty()).len() == 0);
            assert(spec_lines(tail) =~= seq![strip_cr(up_to_newline(tail))]);
            assert(line@ == strip_cr(up_to_newline(tail)));
        }
        let ghost pre = out@.map_values(|s: String| s@);
        out.push(chars_to_string(&line));
        proof {
            assert(out@.map_values(|s: String| s@) =~= pre + seq![line@]);
        }
    } else {
        proof {
            assert(v@.skip(line_start as int).len() == 0);
            assert(spec_lines(v@.skip(line_start as int)) =~= Seq::<Seq<char>>::empty());
            assert(out@.map_values(|s: String| s@) =~= out@.map_values(|s: String| s@)
                + spec_lines(v@.skip(line_start as int)));
        }
    }
    out
}

/// Whether a guid can survive the history file: non-empty, with no line
/// break and no carriage return in it.
pub open spec fn line_safe(g: Seq<char>) -> bool {
    g.len() > 0 && (forall|k: int| 0 <= k < g.len() ==> g[k] != '\n' && g[k] != '\r')
}

/// The ledger's persistence is faithful: joining guids into the history text
/// and splitting that text gives the guids back, as long as each is a single
/// non-empty line.
pub proof fn lemma_history_round_trip(guids: Seq<Seq<char>>)
    requires
        forall|i: int| 0 <= i < guids.len() ==> line_safe(#[trigger] guids[i]),
    ensures
        spec_lines(spec_join_lines(guids)) == guids,
    decreases guids.len(),
{
    if guids.len() == 0 {
        assert(spec_lines(spec_join_lines(guids)) =~= guids);
    } else if guids.len() == 1 {
        let g = guids[0];
        assert(line_safe(g));
        lemma_split_at_newline(g, g.len() as int);
        assert(g.subrange(0, g.len() as int) =~= g);
        assert(strip_cr(g) == g);
        assert(spec_lines(after_newline(g)).len() == 0);
        assert(spec_lines(spec_join_lines(guids)) =~= guids);
    } else {
        let g = guids[0];
        let rest = guids.drop_first();
        let joined = spec_join_lines(guids);
        let rest_joined = spec_join_lines(rest);
        assert(joined == g + seq!['\n'] + rest_joined);
        assert(line_safe(g));
        assert(forall|k: int| 0 <= k < g.len() ==> joined[k] == g[k]);
        assert(joined[g.len() as int] == '\n');
        lemma_split_at_newline(joined, g.len() as int);
        assert(up_to_newline(joined) =~= g);
        assert(strip_cr(g) == g);
        assert(after_newline(joined) =~= rest_joined);
        assert(forall|i: int| 0 <= i < rest.len() ==> line_safe(#[trigger] rest[i]));
        lemma_history_round_trip(rest);
        assert(spec_lines(joined) =~= seq![g] + spec_lines(rest_joined));
        assert(seq![g] + rest =~= guids);
    }
}

/// The record of every guid already processed: loaded from the persisted
/// history once per run, consulted before every relocation, and written back
/// at the end.
pub struct ZipModRecord {
    pub path: String,
    pub guids: Vec<String>,
}

impl ZipModRecord {
    /// The guids as character sequences.
    pub open spec fn guid_seq(&self) -> Seq<Seq<char>> {
        self.guids@.map_values(|s: String| s@)
    }

    /// Builds the ledger from the history file's text: one guid per line.
    /// `None` stands for a history that does not exist yet and yields an
    /// empty ledger.
    pub fn new(path: String, file_content: &Option<String>) -> (r: ZipModRecord)
        ensures
            r.path@ == path@,
            match file_content {
                Some(text) => r.guid_seq() == spec_lines(text@),
                None => r.guid_seq() == Seq::<Seq<char>>::empty(),
            },
    {
        let guids = match file_content {
            Some(text) => split_lines(text.as_str()),
            None => Vec::new(),
        };
        proof {
            if file_content is None {
                assert(guids@.map_values(|s: String| s@) =~= Seq::<Seq<char>>::empty());
            }
        }
        ZipModRecord { path, guids }
    }

    /// Whether the guid is already recorded.
    pub fn contains(&self, guid: &str) -> (r: bool)
        ensures
            r == self.guid_seq().contains(guid@),
    {
        let n = self.guids.len();
        let mut i: usize = 0;
        while i < n
            invariant
                i <= n,
                n == self.guids@.len(),
                forall|k: int| 0 <= k < i ==> self.guid_seq()[k] != guid@,
            decreases n - i,
        {
            if crate::chars::str_eq(self.guids[i].as_str(), guid) {
                proof {
                    assert(self.guid_seq()[i as int] == guid@);
                }
                return true;
            }
            i = i + 1;
        }
        proof {
            if self.guid_seq().contains(guid@) {
                let k = choose|k: int|
                    0 <= k < self.guid_seq().len() && self.guid_seq()[k] == guid@;
                assert(self.guid_seq()[k] != guid@);
            }
        }
        false
    }

    /// Records one more guid.
    pub fn append(&mut self, guid: &str)
        ensures
            final(self).guid_seq() == old(self).guid_seq().push(guid@),
            final(self).path == old(self).path,
    {
        let g = guid.to_owned();
        self.guids.push(g);
        proof {
            assert(self.guid_seq() =~= old(self).guid_seq().push(guid@));
        }
    }

    /// The text the history file is rewritten with: the guids joined with
    /// newlines.
    pub fn history_text(&self) -> (r: String)
        ensures
            r@ == spec_join_lines(self.guid_seq()),
    {
        let n = self.guids.len();
        let mut v: Vec<char> = Vec::new();
        let mut i: usize = 0;
        proof {
            assert(self.guid_seq().skip(0) =~= self.guid_seq());
        }
        while i < n
            invariant
                i <= n,
                n == self.guids@.len(),
                i == 0 ==> v@ == Seq::<char>::empty(),
                i > 0 ==> spec_join_lines(self.guid_seq()) == v@ + (if i < n {
                    seq!['\n'] + spec_join_lines(self.guid_seq().skip(i as int))
                } else {
                    Seq::<char>::empty()
                }),
            decreases n - i,
        {
            let ghost pre = v@;
            if i > 0 {
                v.push('\n');
            }
            let line = str_to_chars(self.guids[i].as_str());
            push_all(&mut v, &line);
            i = i + 1;
            proof {
                let gs = self.guid_seq();
                assert(gs.skip(i - 1)[0] == gs[i - 1]);
                assert(gs.skip(i - 1).drop_first() =~= gs.skip(i as int));
                if i == 1 {
                    assert(v@ =~= gs[0]);
                    if i < n {
                        assert(spec_join_lines(gs.skip(0)) == gs[0] + seq!['\n']
                            + spec_join_lines(gs.skip(1)));
                        assert(gs.skip(0) =~= gs);
                        assert(spec_join_lines(gs) =~= v@ + (seq!['\n'] + spec_join_lines(
                            gs.skip(1),
                        )));
                    } else {
                        assert(gs.len() == 1);
                        assert(spec_join_lines(gs) == gs[0]);
                    }
                } else {
                    assert(v@ =~= pre + seq!['\n'] + gs[i - 1]);
                    if i < n {
                        assert(spec_join_lines(gs.skip(i - 1)) == gs[i - 1] + seq!['\n']
                            + spec_join_lines(gs.skip(i as int)));
                        assert(pre + (seq!['\n'] + spec_join_lines(gs.skip(i - 1))) =~= v@ + (
                        seq!['\n'] + spec_join_lines(gs.skip(i as int))));
                    } else {
                        assert(gs.skip(i - 1).len() == 1);
                        assert(spec_join_lines(gs.skip(i - 1)) == gs.skip(i - 1)[0]);
                        assert(pre + (seq!['\n'] + spec_join_lines(gs.skip(i - 1))) =~= v@);
                    }
                }
            }
        }
        proof {
            if n == 0 {
                assert(spec_join_lines(self.guid_seq()) =~= Seq::<char>::empty());
            }
        }
        chars_to_string(&v)
    }
}

} // verus!
