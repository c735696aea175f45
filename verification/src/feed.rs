//! The activity feed of the demonstration: both devices' newest entries,
//! merged newest first.

use vstd::prelude::*;
use crate::activity::{spec_summary, ActivityEntry};

verus! {

/// One line of the activity feed.
#[derive(Debug, PartialEq, Eq)]
pub struct FeedLine {
    pub who: String,
    pub ts: u64,
    pub line: String,
}

/// `lines` are the feed's lines before merging: one per entry of `a`, by
/// Alice, then one per entry of `b`, by Bob, each with its time and what
/// it says.
pub open spec fn feed_lines(lines: Seq<FeedLine>, a: Seq<ActivityEntry>, b: Seq<ActivityEntry>) -> bool {
    &&& lines.len() == a.len() + b.len()
    &&& forall|k: int|
        0 <= k < a.len() ==> #[trigger] lines[k].who@ == "Alice"@ && lines[k].ts == a[k].ts
            && lines[k].line@ == spec_summary(a[k].activity)
    &&& forall|k: int|
        a.len() <= k < lines.len() ==> #[trigger] lines[k].who@ == "Bob"@ && lines[k].ts == b[k
            - a.len()].ts && lines[k].line@ == spec_summary(b[k - a.len()].activity)
}

/// `line` placed in the newest-first `s`: after every line at least as new.
pub open spec fn placed_newest_first(s: Seq<FeedLine>, line: FeedLine) -> Seq<FeedLine>
    decreases s.len(),
{
    if s.len() == 0 {
        seq![line]
    } else if s[0].ts < line.ts {
        seq![line] + s
    } else {
        seq![s[0]] + placed_newest_first(s.drop_first(), line)
    }
}

/// `lines` sorted newest first, lines of one time in their order.
pub open spec fn newest_lines_first(lines: Seq<FeedLine>) -> Seq<FeedLine>
    decreases lines.len(),
{
    if lines.len() == 0 {
        Seq::empty()
    } else {
        placed_newest_first(newest_lines_first(lines.drop_last()), lines.last())
    }
}

/// Newer lines come first.
pub open spec fn newest_first_order(s: Seq<FeedLine>) -> bool {
    forall|a: int, b: int| 0 <= a < b < s.len() ==> #[trigger] s[a].ts >= #[trigger] s[b].ts
}

proof fn lemma_placed_keeps_order(s: Seq<FeedLine>, line: FeedLine)
    requires
        newest_first_order(s),
    ensures
        newest_first_order(placed_newest_first(s, line)),
        placed_newest_first(s, line).len() == s.len() + 1,
        forall|k: int| 0 <= k < placed_newest_first(s, line).len() ==> (#[trigger] placed_newest_first(s, line)[k] == line
            || s.contains(placed_newest_first(s, line)[k])),
    decreases s.len(),
{
    let r = placed_newest_first(s, line);
    if s.len() == 0 {
    } else if s[0].ts < line.ts {
        assert forall|k: int| 0 <= k < r.len() implies (#[trigger] r[k] == line || s.contains(r[k])) by {
            if k > 0 {
                assert(r[k] == s[k - 1]);
            }
        }
    } else {
        let t = s.drop_first();
        let rt = placed_newest_first(t, line);
        assert(newest_first_order(t)) by {
            assert forall|a: int, b: int| 0 <= a < b < t.len() implies #[trigger] t[a].ts >= #[trigger] t[b].ts by {
                assert(t[a] == s[a + 1] && t[b] == s[b + 1]);
            }
        }
        lemma_placed_keeps_order(t, line);
        assert forall|k: int| 0 <= k < r.len() implies (#[trigger] r[k] == line || s.contains(r[k])) by {
            if k > 0 {
                assert(r[k] == rt[k - 1]);
                if rt[k - 1] != line {
                    let j = choose|j: int| 0 <= j < t.len() && t[j] == rt[k - 1];
                    assert(s[j + 1] == t[j]);
                }
            } else {
                assert(s[0] == r[0]);
            }
        }
        assert forall|a: int, b: int| 0 <= a < b < r.len() implies #[trigger] r[a].ts >= #[trigger] r[b].ts by {
            if a == 0 {
                assert(r[0] == s[0]);
                assert(r[b] == rt[b - 1]);
                if rt[b - 1] == line {
                } else {
                    let j = choose|j: int| 0 <= j < t.len() && t[j] == rt[b - 1];
                    assert(s[j + 1] == t[j]);
                }
            } else {
                assert(r[a] == rt[a - 1] && r[b] == rt[b - 1]);
            }
        }
    }
}

/// The merged feed is newest first, one line per line merged.
pub proof fn law_feed_is_newest_first(lines: Seq<FeedLine>)
    ensures
        newest_first_order(newest_lines_first(lines)),
        newest_lines_first(lines).len() == lines.len(),
    decreases lines.len(),
{
    if lines.len() > 0 {
        law_feed_is_newest_first(lines.drop_last());
        lemma_placed_keeps_order(newest_lines_first(lines.drop_last()), lines.last());
    }
}

/// Placing a line after the `p` lines at least as new as it is placing it
/// at `p`.
proof fn lemma_insert_at(s: Seq<FeedLine>, line: FeedLine, p: int)
    requires
        0 <= p <= s.len(),
        forall|k: int| 0 <= k < p ==> #[trigger] s[k].ts >= line.ts,
        p < s.len() ==> s[p].ts < line.ts,
    ensures
        placed_newest_first(s, line) == s.insert(p, line),
    decreases p,
{
    if p == 0 {
        if s.len() == 0 {
            assert(s.insert(0, line) =~= seq![line]);
        } else {
            assert(s.insert(0, line) =~= seq![line] + s);
        }
    } else {
        let t = s.drop_first();
        assert forall|k: int| 0 <= k < p - 1 implies #[trigger] t[k].ts >= line.ts by {
            assert(t[k] == s[k + 1]);
        }
        lemma_insert_at(t, line, p - 1);
        assert(s.insert(p, line) =~= seq![s[0]] + t.insert(p - 1, line));
    }
}

/// Places `line` in the newest-first `v`, after every line at least as new.
fn insert_newest_first(v: &mut Vec<FeedLine>, line: FeedLine)
    ensures
        final(v)@ == placed_newest_first(old(v)@, line),
{
    let mut p: usize = 0;
    while p < v.len() && v[p].ts >= line.ts
        invariant
            p <= v@.len(),
            v@ == old(v)@,
            forall|k: int| 0 <= k < p ==> #[trigger] v@[k].ts >= line.ts,
        decreases v@.len() - p,
    {
        p += 1;
    }
    proof {
        lemma_insert_at(v@, line, p as int);
    }
    v.insert(p, line);
}

/// The lines for Alice's entries `alice`, then Bob's entries `bob`, in
/// that order.
/// `l` is the line for the entry `e` by `who`.
spec fn line_for(l: FeedLine, who: Seq<char>, e: ActivityEntry) -> bool {
    l.who@ == who && l.ts == e.ts && l.line@ == spec_summary(e.activity)
}

#[verifier::spinoff_prover]
pub fn list_feed(alice: &Vec<ActivityEntry>, bob: &Vec<ActivityEntry>) -> (v: Vec<FeedLine>)
    ensures
        feed_lines(v@, alice@, bob@),
{
    let mut v: Vec<FeedLine> = Vec::new();
    proof {
        reveal_strlit("Alice");
        reveal_strlit("Bob");
    }
    let mut i: usize = 0;
    while i < alice.len()
        invariant
            i <= alice@.len(),
            v@.len() == i,
            forall|k: int| 0 <= k < i ==> line_for(#[trigger] v@[k], "Alice"@, alice@[k]),
        decreases alice@.len() - i,
    {
        let line = FeedLine { who: String::from_str("Alice"), ts: alice[i].ts, line: alice[i].summary() };
        proof {
            assert(line_for(line, "Alice"@, alice@[i as int]));
        }
        v.push(line);
        i += 1;
    }
    let n = alice.len();
    let mut j: usize = 0;
    while j < bob.len()
        invariant
            j <= bob@.len(),
            n == alice@.len(),
            v@.len() == n + j,
            forall|k: int| 0 <= k < n ==> line_for(#[trigger] v@[k], "Alice"@, alice@[k]),
            forall|k: int| n <= k < n + j ==> line_for(#[trigger] v@[k], "Bob"@, bob@[k - n]),
        decreases bob@.len() - j,
    {
        let line = FeedLine { who: String::from_str("Bob"), ts: bob[j].ts, line: bob[j].summary() };
        proof {
            assert(line_for(line, "Bob"@, bob@[j as int]));
        }
        v.push(line);
        j += 1;
    }
    proof {
        assert forall|k: int| 0 <= k < alice@.len() implies #[trigger] v@[k].who@ == "Alice"@ && v@[k].ts
            == alice@[k].ts && v@[k].line@ == spec_summary(alice@[k].activity) by {
            assert(line_for(v@[k], "Alice"@, alice@[k]));
        }
        assert forall|k: int| alice@.len() <= k < v@.len() implies #[trigger] v@[k].who@ == "Bob"@ && v@[k].ts
            == bob@[k - alice@.len()].ts && v@[k].line@ == spec_summary(bob@[k - alice@.len()].activity) by {
            assert(line_for(v@[k], "Bob"@, bob@[k - n]));
        }
    }
    v
}

/// The lines for Alice's entries `alice`, then Bob's entries `bob`,
/// merged newest first.
#[verifier::spinoff_prover]
pub fn merge_feed(alice: &Vec<ActivityEntry>, bob: &Vec<ActivityEntry>) -> (v: Vec<FeedLine>)
    ensures
        exists|lines: Seq<FeedLine>| feed_lines(lines, alice@, bob@) && v@ == #[trigger] newest_lines_first(lines),
{
    let mut v: Vec<FeedLine> = Vec::new();
    let ghost mut lines: Seq<FeedLine> = Seq::empty();
    proof {
        reveal_strlit("Alice");
        reveal_strlit("Bob");
    }
    let mut i: usize = 0;
    while i < alice.len()
        invariant
            i <= alice@.len(),
            lines.len() == i,
            v@ == newest_lines_first(lines),
            forall|k: int| 0 <= k < i ==> #[trigger] lines[k].who@ == "Alice"@ && lines[k].ts
                == alice@[k].ts && lines[k].line@ == spec_summary(alice@[k].activity),
        decreases alice@.len() - i,
    {
        let line = FeedLine { who: String::from_str("Alice"), ts: alice[i].ts, line: alice[i].summary() };
        proof {
            let prev = lines;
            lines = lines.push(line);
            assert(lines.drop_last() =~= prev);
            assert forall|k: int| 0 <= k < i + 1 implies #[trigger] lines[k].who@ == "Alice"@ && lines[k].ts
                == alice@[k].ts && lines[k].line@ == spec_summary(alice@[k].activity) by {
                if k < i {
                    assert(lines[k] == prev[k]);
                }
            }
        }
        insert_newest_first(&mut v, line);
        i += 1;
    }
    let n = alice.len();
    let mut j: usize = 0;
    while j < bob.len()
        invariant
            j <= bob@.len(),
            n == alice@.len(),
            lines.len() == n + j,
            v@ == newest_lines_first(lines),
            forall|k: int| 0 <= k < n ==> #[trigger] lines[k].who@ == "Alice"@ && lines[k].ts
                == alice@[k].ts && lines[k].line@ == spec_summary(alice@[k].activity),
            forall|k: int| n <= k < n + j ==> #[trigger] lines[k].who@ == "Bob"@ && lines[k].ts
                == bob@[k - n].ts && lines[k].line@ == spec_summary(bob@[k - n].activity),
        decreases bob@.len() - j,
    {
        let line = FeedLine { who: String::from_str("Bob"), ts: bob[j].ts, line: bob[j].summary() };
        proof {
            let prev = lines;
            lines = lines.push(line);
            assert(lines.drop_last() =~= prev);
            assert forall|k: int| 0 <= k < n implies #[trigger] lines[k].who@ == "Alice"@ && lines[k].ts
                == alice@[k].ts && lines[k].line@ == spec_summary(alice@[k].activity) by {
                assert(lines[k] == prev[k]);
                assert(prev[k].who@ == "Alice"@);
            }
            assert forall|k: int| n <= k < n + j + 1 implies #[trigger] lines[k].who@ == "Bob"@ && lines[k].ts
                == bob@[k - n].ts && lines[k].line@ == spec_summary(bob@[k - n].activity) by {
                if k < n + j {
                    assert(lines[k] == prev[k]);
                }
            }
        }
        insert_newest_first(&mut v, line);
        j += 1;
    }
    proof {
        assert forall|k: int| alice@.len() <= k < lines.len() implies #[trigger] lines[k].who@ == "Bob"@ && lines[k].ts
            == bob@[k - alice@.len()].ts && lines[k].line@ == spec_summary(bob@[k - alice@.len()].activity) by {
        }
        assert(feed_lines(lines, alice@, bob@));
    }
    v
}

} // verus!
