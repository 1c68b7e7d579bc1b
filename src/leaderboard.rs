//! The top-scores table: who qualifies, ordered insertion, and the `name,score` record.

use vstd::prelude::*;

verus! {

/// How many entries the table keeps.
pub const MAX_HIGH_SCORES: usize = 5;

/// One row of the table.
#[derive(Clone, Debug)]
pub struct HighScoreEntry {
    pub name: Vec<char>,
    pub score: u32,
}

impl View for HighScoreEntry {
    type V = (Seq<char>, u32);

    open spec fn view(&self) -> (Seq<char>, u32) {
        (self.name@, self.score)
    }
}

/// The best scores, highest first.
#[derive(Clone, Debug)]
pub struct Leaderboard {
    pub entries: Vec<HighScoreEntry>,
}

pub open spec fn entries_view(v: Seq<HighScoreEntry>) -> Seq<(Seq<char>, u32)> {
    v.map_values(|e: HighScoreEntry| e@)
}

pub open spec fn sorted_desc(s: Seq<(Seq<char>, u32)>) -> bool {
    forall|i: int, j: int| 0 <= i < j < s.len() ==> (#[trigger] s[i]).1 >= (#[trigger] s[j]).1
}

/// Where a score goes: after every entry scoring at least as much.
pub open spec fn insert_pos(s: Seq<(Seq<char>, u32)>, score: u32, i: int) -> int
    decreases s.len() - i,
{
    if i < 0 || i >= s.len() {
        s.len() as int
    } else if s[i].1 < score {
        i
    } else {
        insert_pos(s, score, i + 1)
    }
}

/// The table after recording `e`: inserted in order, then cut to capacity.
pub open spec fn recorded(s: Seq<(Seq<char>, u32)>, e: (Seq<char>, u32)) -> Seq<(Seq<char>, u32)> {
    let ins = s.insert(insert_pos(s, e.1, 0), e);
    if ins.len() > MAX_HIGH_SCORES { ins.subrange(0, MAX_HIGH_SCORES as int) } else { ins }
}

/// Whether a final score earns a place in the table.
pub open spec fn qualifies(s: Seq<(Seq<char>, u32)>, score: u32) -> bool {
    s.len() < MAX_HIGH_SCORES || score > s.last().1
}

proof fn lemma_insert_pos(s: Seq<(Seq<char>, u32)>, score: u32, i: int)
    requires
        0 <= i <= s.len(),
    ensures
        i <= insert_pos(s, score, i) <= s.len(),
        forall|j: int| i <= j < insert_pos(s, score, i) ==> (#[trigger] s[j]).1 >= score,
        insert_pos(s, score, i) < s.len() ==> s[insert_pos(s, score, i)].1 < score,
    decreases s.len() - i,
{
    if i < s.len() && s[i].1 >= score {
        lemma_insert_pos(s, score, i + 1);
    }
}


pub open spec fn is_digit(c: char) -> bool {
    '0' <= c <= '9'
}

pub open spec fn all_digits(s: Seq<char>) -> bool {
    forall|i: int| 0 <= i < s.len() ==> is_digit(#[trigger] s[i])
}

/// The number that a string of decimal digits spells.
pub open spec fn digits_value(s: Seq<char>) -> int
    decreases s.len(),
{
    if s.len() == 0 {
        0
    } else {
        digits_value(s.drop_last()) * 10 + (s.last() as int - '0' as int)
    }
}

/// A score as text: decimal digits with an optional leading `+`, that fit in a `u32`.
pub open spec fn score_spec(s: Seq<char>) -> Option<u32> {
    let d = if s.len() > 0 && s[0] == '+' { s.drop_first() } else { s };
    if d.len() > 0 && all_digits(d) && digits_value(d) <= u32::MAX {
        Some(digits_value(d) as u32)
    } else {
        None
    }
}

/// The first comma at or after index `i`.
pub open spec fn comma_from(s: Seq<char>, i: int) -> Option<int>
    decreases s.len() - i,
{
    if i < 0 || i >= s.len() {
        None
    } else if s[i] == ',' {
        Some(i)
    } else {
        comma_from(s, i + 1)
    }
}

/// A stored line `name,score`: exactly one comma, and a score after it.
pub open spec fn record_spec(line: Seq<char>) -> Option<(Seq<char>, u32)> {
    match comma_from(line, 0) {
        None => None,
        Some(k) => if comma_from(line, k + 1) is Some {
            None
        } else {
            match score_spec(line.subrange(k + 1, line.len() as int)) {
                Some(v) => Some((line.subrange(0, k), v)),
                None => None,
            }
        },
    }
}

/// The table built from stored lines in order, skipping those that do not parse.
pub open spec fn loaded(lines: Seq<Seq<char>>) -> Seq<(Seq<char>, u32)>
    decreases lines.len(),
{
    if lines.len() == 0 {
        Seq::empty()
    } else {
        let prev = loaded(lines.drop_last());
        match record_spec(lines.last()) {
            Some(e) => recorded(prev, e),
            None => prev,
        }
    }
}

proof fn lemma_digits_prefix(s: Seq<char>, i: int)
    requires
        0 <= i <= s.len(),
        all_digits(s),
    ensures
        0 <= digits_value(s.subrange(0, i)) <= digits_value(s),
    decreases s.len(),
{
    if i == s.len() {
        assert(s.subrange(0, i) =~= s);
        lemma_digits_nonneg(s);
    } else {
        let t = s.drop_last();
        assert(t.subrange(0, i) =~= s.subrange(0, i));
        lemma_digits_prefix(t, i);
        assert(digits_value(t) * 10 >= digits_value(t)) by (nonlinear_arith)
            requires digits_value(t) >= 0;
    }
}

proof fn lemma_digits_nonneg(s: Seq<char>)
    requires
        all_digits(s),
    ensures
        digits_value(s) >= 0,
    decreases s.len(),
{
    if s.len() > 0 {
        lemma_digits_nonneg(s.drop_last());
    }
}

/// Reads the score that `s` holds from index `start` on.
fn parse_score(s: &Vec<char>, start: usize) -> (r: Option<u32>)
    requires
        start <= s@.len(),
    ensures
        r == score_spec(s@.subrange(start as int, s@.len() as int)),
{
    let ghost t = s@.subrange(start as int, s@.len() as int);
    let mut d0: usize = start;
    if start < s.len() && s[start] == '+' {
        d0 = start + 1;
    }
    let ghost d = s@.subrange(d0 as int, s@.len() as int);
    proof {
        if t.len() > 0 && t[0] == '+' {
            assert(t.drop_first() =~= d);
        } else {
            assert(t =~= d);
        }
    }
    if d0 == s.len() {
        return None;
    }
    let mut acc: u64 = 0;
    let mut j: usize = d0;
    while j < s.len()
        invariant
            d0 <= j <= s@.len(),
            t == s@.subrange(start as int, s@.len() as int),
            d == s@.subrange(d0 as int, s@.len() as int),
            score_spec(t) == (if d.len() > 0 && all_digits(d) && digits_value(d) <= u32::MAX {
                Some(digits_value(d) as u32)
            } else {
                None::<u32>
            }),
            d.len() > 0,
            all_digits(s@.subrange(d0 as int, j as int)),
            acc == digits_value(s@.subrange(d0 as int, j as int)),
            acc <= u32::MAX,
        decreases s@.len() - j,
    {
        let c = s[j];
        if !('0' <= c && c <= '9') {
            proof {
                assert(d[j - d0] == c);
                assert(!is_digit(d[j - d0]));
            }
            return None;
        }
        proof {
            assert(s@.subrange(d0 as int, j + 1).drop_last() =~= s@.subrange(d0 as int, j as int));
        }
        let ghost prev = s@.subrange(d0 as int, j as int);
        let ghost next = s@.subrange(d0 as int, j + 1);
        proof {
            assert(next.last() == c);
            assert(digits_value(next) == digits_value(prev) * 10 + (c as int - '0' as int));
            assert forall|m: int| 0 <= m < next.len() implies is_digit(#[trigger] next[m]) by {
                if m < prev.len() {
                    assert(next[m] == prev[m]);
                }
            }
        }
        acc = acc * 10 + (c as u64 - '0' as u64);
        j = j + 1;
        if acc > u32::MAX as u64 {
            proof {
                if all_digits(d) {
                    assert(d.subrange(0, j - d0) =~= s@.subrange(d0 as int, j as int));
                    lemma_digits_prefix(d, j - d0);
                }
            }
            return None;
        }
    }
    proof {
        assert(s@.subrange(d0 as int, j as int) =~= d);
    }
    Some(acc as u32)
}

/// The first comma of `s` at or after `i`.
fn find_comma(s: &Vec<char>, i: usize) -> (r: Option<usize>)
    requires
        i <= s@.len(),
    ensures
        r matches Some(k) ==> comma_from(s@, i as int) == Some(k as int) && i <= k < s@.len(),
        r is None ==> comma_from(s@, i as int) is None,
{
    let mut j: usize = i;
    while j < s.len()
        invariant
            i <= j <= s@.len(),
            comma_from(s@, i as int) == comma_from(s@, j as int),
        decreases s@.len() - j,
    {
        if s[j] == ',' {
            return Some(j);
        }
        j = j + 1;
    }
    None
}

/// Reads a stored line `name,score`; `None` for a line that does not have that shape.
pub fn parse_record(line: &Vec<char>) -> (r: Option<HighScoreEntry>)
    ensures
        match record_spec(line@) {
            Some(e) => r matches Some(h) && h@ == e,
            None => r is None,
        },
{
    let n = line.len();
    let k = match find_comma(line, 0) {
        None => return None,
        Some(k) => k,
    };
    assert(k < n);
    if find_comma(line, k + 1).is_some() {
        return None;
    }
    let score = match parse_score(line, k + 1) {
        None => return None,
        Some(v) => v,
    };
    let mut name: Vec<char> = Vec::new();
    let mut i: usize = 0;
    while i < k
        invariant
            k < line@.len(),
            i <= k,
            name@ =~= line@.subrange(0, i as int),
        decreases k - i,
    {
        name.push(line[i]);
        i = i + 1;
    }
    Some(HighScoreEntry { name, score })
}

impl Leaderboard {
    pub open spec fn view(&self) -> Seq<(Seq<char>, u32)> {
        entries_view(self.entries@)
    }

    pub open spec fn wf(&self) -> bool {
        self.entries@.len() <= MAX_HIGH_SCORES && sorted_desc(self.view())
    }

    /// An empty table.
    pub fn new() -> (r: Leaderboard)
        ensures
            r.wf(),
            r.view().len() == 0,
    {
        Leaderboard { entries: Vec::new() }
    }

    /// The table that stored lines describe, read in order; lines that do not parse
    /// are skipped.
    pub fn from_lines(lines: &Vec<Vec<char>>) -> (r: Leaderboard)
        ensures
            r.wf(),
            r.view() == loaded(lines@.map_values(|l: Vec<char>| l@)),
    {
        let ghost ls = lines@.map_values(|l: Vec<char>| l@);
        let mut board = Leaderboard::new();
        let mut i: usize = 0;
        while i < lines.len()
            invariant
                i <= lines@.len(),
                ls == lines@.map_values(|l: Vec<char>| l@),
                board.wf(),
                board.view() == loaded(ls.subrange(0, i as int)),
            decreases lines@.len() - i,
        {
            proof {
                assert(ls.subrange(0, i + 1).drop_last() =~= ls.subrange(0, i as int));
                assert(ls.subrange(0, i + 1).last() == lines@[i as int]@);
            }
            match parse_record(&lines[i]) {
                Some(e) => board.add_high_score(e.name, e.score),
                None => {},
            }
            i = i + 1;
        }
        proof {
            assert(ls.subrange(0, lines@.len() as int) =~= ls);
        }
        board
    }

    /// Whether `score` earns a place: the table has room, or it beats the lowest entry.
    pub fn is_high_score(&self, score: u32) -> (r: bool)
        ensures
            r == qualifies(self.view(), score),
    {
        if self.entries.len() < MAX_HIGH_SCORES {
            return true;
        }
        score > self.entries[self.entries.len() - 1].score
    }

    /// Records `name` with `score`, keeping the table ordered and at most
    /// `MAX_HIGH_SCORES` long; among equal scores the earlier entry stays first.
    pub fn add_high_score(&mut self, name: Vec<char>, score: u32)
        requires
            old(self).wf(),
        ensures
            final(self).wf(),
            final(self).view() == recorded(old(self).view(), (name@, score)),
    {
        let ghost s = self.view();
        proof {
            lemma_insert_pos(s, score, 0);
        }
        let mut i: usize = 0;
        while i < self.entries.len() && self.entries[i].score >= score
            invariant
                i <= self.entries@.len(),
                s == self.view(),
                insert_pos(s, score, 0) == insert_pos(s, score, i as int),
            decreases self.entries@.len() - i,
        {
            i = i + 1;
        }
        proof {
            if i < self.entries@.len() {
                assert(s[i as int].1 < score);
            }
            assert(i == insert_pos(s, score, 0));
        }
        let e = HighScoreEntry { name, score };
        let ghost before = self.entries@;
        self.entries.insert(i, e);
        let ghost ins_v = self.entries@;
        self.entries.truncate(MAX_HIGH_SCORES);
        proof {
            let ins = s.insert(i as int, e@);
            assert(entries_view(ins_v) =~= ins) by {
                assert(ins_v =~= before.insert(i as int, e));
            }
            assert(entries_view(self.entries@) =~= recorded(s, e@));
            assert forall|a: int, b: int| 0 <= a < b < ins.len() implies (#[trigger] ins[a]).1 >= (#[trigger] ins[b]).1 by {
                if b < i {
                    assert(ins[a] == s[a] && ins[b] == s[b]);
                } else if b == i {
                    assert(ins[a] == s[a]);
                } else if a < i {
                    assert(ins[a] == s[a] && ins[b] == s[b - 1]);
                } else if a == i {
                    assert(ins[b] == s[b - 1]);
                    assert(s[i as int].1 >= s[b - 1].1);
                } else {
                    assert(ins[a] == s[a - 1] && ins[b] == s[b - 1]);
                }
            }
            assert(sorted_desc(entries_view(self.entries@)));
        }
    }
}

} // verus!
