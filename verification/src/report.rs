//! Per-line matching over a text blob: line splitting, 1-based numbering,
//! and the match records that a search emits.
use crate::pattern::{query_matches, Query};
use crate::text::{split_at_char, split_char, views_of};
use vstd::prelude::*;

verus! {

/// One reported hit: the 1-based line number and the file it occurred in.
pub struct MatchRecord {
    pub line: usize,
    pub path: String,
}

/// The numbers of the lines that match the query, in order, when the first
/// line of `lines` is numbered `first`.
pub open spec fn hit_numbers(q: Query, lines: Seq<Seq<char>>, first: int) -> Seq<int>
    decreases lines.len(),
{
    if lines.len() == 0 {
        Seq::<int>::empty()
    } else if query_matches(q, lines[0]) {
        seq![first] + hit_numbers(q, lines.drop_first(), first + 1)
    } else {
        hit_numbers(q, lines.drop_first(), first + 1)
    }
}

/// Testing one more line appends its number exactly when it matches.
pub proof fn lemma_hit_numbers_push(q: Query, lines: Seq<Seq<char>>, l: Seq<char>, first: int)
    ensures
        query_matches(q, l) ==> hit_numbers(q, lines.push(l), first) == hit_numbers(
            q,
            lines,
            first,
        ).push(first + lines.len()),
        !query_matches(q, l) ==> hit_numbers(q, lines.push(l), first) == hit_numbers(
            q,
            lines,
            first,
        ),
    decreases lines.len(),
{
    if lines.len() == 0 {
        assert(lines.push(l)[0] == l);
        assert(lines.push(l).drop_first() =~= lines);
        assert(hit_numbers(q, lines, first + 1) == Seq::<int>::empty());
        assert(hit_numbers(q, lines, first) == Seq::<int>::empty());
        if query_matches(q, l) {
            assert(hit_numbers(q, lines.push(l), first) == seq![first] + hit_numbers(
                q,
                lines,
                first + 1,
            ));
            assert(hit_numbers(q, lines.push(l), first) =~= hit_numbers(q, lines, first).push(
                first + lines.len(),
            ));
        } else {
            assert(hit_numbers(q, lines.push(l), first) == hit_numbers(q, lines, first + 1));
        }
    } else {
        assert(lines.push(l)[0] == lines[0]);
        assert(lines.push(l).drop_first() =~= lines.drop_first().push(l));
        lemma_hit_numbers_push(q, lines.drop_first(), l, first + 1);
        if query_matches(q, l) {
            assert(hit_numbers(q, lines.push(l), first) =~= hit_numbers(q, lines, first).push(
                first + lines.len(),
            ));
        }
    }
}

/// Line numbering: reported numbers are strictly increasing and lie in
/// `[first, first + lines.len())` — with `first == 1`, they are 1-based and
/// contiguous with the physical lines.
pub proof fn lemma_hit_numbers_increasing(q: Query, lines: Seq<Seq<char>>, first: int)
    ensures
        forall|k: int|
            0 <= k < hit_numbers(q, lines, first).len() ==> first <= #[trigger] hit_numbers(
                q,
                lines,
                first,
            )[k] < first + lines.len(),
        forall|k1: int, k2: int|
            0 <= k1 < k2 < hit_numbers(q, lines, first).len() ==> hit_numbers(q, lines, first)[k1]
                < hit_numbers(q, lines, first)[k2],
    decreases lines.len(),
{
    if lines.len() > 0 {
        lemma_hit_numbers_increasing(q, lines.drop_first(), first + 1);
        let hs = hit_numbers(q, lines, first);
        let rest = hit_numbers(q, lines.drop_first(), first + 1);
        if query_matches(q, lines[0]) {
            assert(hs == seq![first] + rest);
            assert(hs[0] == first);
            assert forall|k: int| 1 <= k < hs.len() implies first <= hs[k] < first + lines.len()
                && hs[k] > first by {
                assert(hs[k] == rest[k - 1]);
            }
            assert forall|k1: int, k2: int| 0 <= k1 < k2 < hs.len() implies hs[k1] < hs[k2] by {
                assert(hs[k2] == rest[k2 - 1]);
                if k1 > 0 {
                    assert(hs[k1] == rest[k1 - 1]);
                }
            }
        } else {
            assert(hs == rest);
        }
    }
}

/// Traversal completeness at the line level: every line is tested exactly
/// once — line number `first + i` is reported iff line `i` matches, and by
/// the strict increase above it is reported at most once.
pub proof fn lemma_hit_numbers_complete(q: Query, lines: Seq<Seq<char>>, first: int)
    ensures
        forall|i: int|
            0 <= i < lines.len() ==> (hit_numbers(q, lines, first).contains(first + i)
                <==> query_matches(q, #[trigger] lines[i])),
    decreases lines.len(),
{
    lemma_hit_numbers_increasing(q, lines, first);
    if lines.len() > 0 {
        lemma_hit_numbers_complete(q, lines.drop_first(), first + 1);
        let hs = hit_numbers(q, lines, first);
        let rest = hit_numbers(q, lines.drop_first(), first + 1);
        lemma_hit_numbers_increasing(q, lines.drop_first(), first + 1);
        assert forall|i: int| 0 <= i < lines.len() implies (hs.contains(first + i)
            <==> query_matches(q, #[trigger] lines[i])) by {
            if i == 0 {
                if query_matches(q, lines[0]) {
                    assert(hs[0] == first);
                    assert(hs.contains(first));
                } else {
                    assert(hs == rest);
                    if hs.contains(first) {
                        let k = choose|k: int| 0 <= k < rest.len() && rest[k] == first;
                        assert(first + 1 <= rest[k]);
                    }
                }
            } else {
                assert(lines.drop_first()[i - 1] == lines[i]);
                if query_matches(q, lines[i]) {
                    assert(rest.contains(first + i));
                    let k = choose|k: int| 0 <= k < rest.len() && rest[k] == first + i;
                    if query_matches(q, lines[0]) {
                        assert(hs[k + 1] == first + i);
                        assert(hs.contains(first + i));
                    } else {
                        assert(hs.contains(first + i));
                    }
                } else {
                    assert(!rest.contains(first + i));
                    if hs.contains(first + i) {
                        let k = choose|k: int| 0 <= k < hs.len() && hs[k] == first + i;
                        if query_matches(q, lines[0]) {
                            assert(k > 0);
                            assert(rest[k - 1] == first + i);
                        } else {
                            assert(rest[k] == first + i);
                        }
                    }
                }
            }
        }
    }
}

/// Tests every line against the query and reports the matches, numbering
/// lines from 1 in physical order.
pub fn search_lines(query: &Query, lines: &Vec<String>, path: &str) -> (r: Vec<MatchRecord>)
    ensures
        r@.map_values(|m: MatchRecord| m.line as int) == hit_numbers(
            *query,
            views_of(lines@),
            1,
        ),
        forall|k: int| 0 <= k < r@.len() ==> (#[trigger] r@[k]).path@ == path@,
{
    let mut r: Vec<MatchRecord> = Vec::new();
    let mut i: usize = 0;
    while i < lines.len()
        invariant
            i <= lines@.len(),
            r@.map_values(|m: MatchRecord| m.line as int) == hit_numbers(
                *query,
                views_of(lines@).take(i as int),
                1,
            ),
            forall|k: int| 0 <= k < r@.len() ==> (#[trigger] r@[k]).path@ == path@,
        decreases lines@.len() - i,
    {
        proof {
            lemma_hit_numbers_push(
                *query,
                views_of(lines@).take(i as int),
                lines@[i as int]@,
                1,
            );
            assert(views_of(lines@).take(i as int).push(lines@[i as int]@) =~= views_of(
                lines@,
            ).take(i + 1));
        }
        if query.matches(lines[i].as_str()) {
            let ghost old_r = r@;
            r.push(MatchRecord { line: i + 1, path: path.to_owned() });
            proof {
                assert(r@.map_values(|m: MatchRecord| m.line as int) =~= old_r.map_values(
                    |m: MatchRecord| m.line as int,
                ).push(i + 1));
            }
        }
        i += 1;
    }
    proof {
        assert(views_of(lines@).take(lines@.len() as int) =~= views_of(lines@));
    }
    r
}

/// Splits a text blob into lines at each line feed and reports every
/// matching line with its 1-based number and the path searched.
pub fn search_content(query: &Query, content: &str, path: &str) -> (r: Vec<MatchRecord>)
    ensures
        r@.map_values(|m: MatchRecord| m.line as int) == hit_numbers(
            *query,
            split_char(content@, '\n'),
            1,
        ),
        forall|k: int| 0 <= k < r@.len() ==> (#[trigger] r@[k]).path@ == path@,
{
    let lines = split_at_char(content, '\n');
    search_lines(query, &lines, path)
}

} // verus!
