//! Feeding the same lines to a parser a second time.

use crate::field::kind_of;
use crate::field::RecordKind;
use crate::field::FIELD_SLOTS;
use crate::parser::after_line;
use crate::parser::after_lines;
use crate::parser::after_record;
use crate::parser::cache_wf;
use crate::parser::entry_for;
use crate::parser::has_code;
use crate::parser::index_of_code;
use crate::parser::lemma_index_unique;
use crate::parser::lemma_record_entry;
use crate::parser::lemma_stored_wf;
use crate::parser::record_stamp;
use crate::parser::FeedError;
use crate::parser::ParserView;
use crate::snapshot::lemma_written_at;
use crate::snapshot::lemma_written_len;
use crate::snapshot::updated;
use crate::snapshot::SnapshotView;
use crate::tokens::split;
use vstd::prelude::*;

verus! {

/// Two snapshots that differ at most in their changed flag.
pub open spec fn same_but_flag(a: SnapshotView, b: SnapshotView) -> bool {
    &&& a.market == b.market
    &&& a.code == b.code
    &&& a.name == b.name
    &&& a.fields == b.fields
    &&& a.timestamp == b.timestamp
}

/// Two parser states with the same anchor and the same snapshots in the same
/// order, but for the changed flags.
pub open spec fn same_but_flags(a: ParserView, b: ParserView) -> bool {
    &&& a.anchor == b.anchor
    &&& a.cache.len() == b.cache.len()
    &&& forall|i: int| 0 <= i < a.cache.len() ==> same_but_flag(#[trigger] a.cache[i], b.cache[i])
}

/// Whether the lines settle the anchor before any record reads it: the state
/// already has the anchor that the lines end with, or the first line is a header
/// that carries a date-time token.
pub open spec fn anchored(state: ParserView, lines: Seq<Seq<u8>>, end: ParserView) -> bool {
    ||| state.anchor == end.anchor
    ||| (lines.len() >= 1 && kind_of(split(lines[0])[0]) == Some(RecordKind::Header) && split(
        lines[0],
    ).len() > 6)
}

/// A later cache extends an earlier one: the earlier snapshots are still in
/// their places under their codes, and a name once given is kept.
pub open spec fn extends(a: Seq<SnapshotView>, b: Seq<SnapshotView>) -> bool {
    &&& a.len() <= b.len()
    &&& forall|i: int|
        0 <= i < a.len() ==> (#[trigger] b[i]).code == a[i].code && (a[i].name.len() > 0 ==> b[i].name
            == a[i].name)
}

/// During the second pass, a snapshot `x` at place `i` agrees in every part
/// either with the end of the first pass, `g`, or with the first pass at the same
/// line, `u[i]`.
pub open spec fn entry_trails(u: Seq<SnapshotView>, i: int, x: SnapshotView, g: SnapshotView) -> bool {
    &&& x.code == g.code
    &&& x.market == g.market
    &&& x.fields.len() == FIELD_SLOTS
    &&& (x.name == g.name || (i < u.len() && x.name == u[i].name))
    &&& (x.timestamp == g.timestamp || (i < u.len() && x.timestamp == u[i].timestamp))
    &&& forall|s: int|
        0 <= s < FIELD_SLOTS ==> #[trigger] x.fields[s] == g.fields[s] || (i < u.len() && x.fields[s]
            == u[i].fields[s])
}

/// The second pass, `t`, trails the first, `u`, towards the first pass's end.
pub open spec fn trails(u: ParserView, t: ParserView, goal: ParserView) -> bool {
    &&& t.cache.len() == goal.cache.len()
    &&& forall|i: int|
        0 <= i < t.cache.len() ==> entry_trails(u.cache, i, #[trigger] t.cache[i], goal.cache[i])
}

/// One line keeps the cache well formed and extends it.
pub proof fn lemma_line_extends(state: ParserView, line: Seq<u8>, next: ParserView)
    requires
        cache_wf(state.cache),
        after_line(state, line) == Ok::<ParserView, FeedError>(next),
    ensures
        cache_wf(next.cache),
        extends(state.cache, next.cache),
{
    let tokens = split(line);
    match kind_of(tokens[0]) {
        None => {},
        Some(RecordKind::Header) => {},
        Some(kind) => {
            let count = kind.field_count_spec();
            lemma_record_entry(state, tokens, count, next);
            let code = tokens[1];
            if has_code(state.cache, code) {
                let j = index_of_code(state.cache, code);
                assert(next.cache[j].code == code);
                lemma_index_unique(next.cache, code, j);
                assert forall|i: int| 0 <= i < state.cache.len() implies (#[trigger] next.cache[i]).code
                    == state.cache[i].code && (state.cache[i].name.len() > 0 ==> next.cache[i].name
                    == state.cache[i].name) by {}
            }
        },
    }
}

/// Where the first `n` lines are read without error, so are the first `k` of
/// them, and the cache after `n` lines extends the cache after `k`.
pub proof fn lemma_run_extends(state: ParserView, lines: Seq<Seq<u8>>, k: nat, n: nat)
    requires
        cache_wf(state.cache),
        k <= n,
        after_lines(state, lines, n) is Ok,
    ensures
        after_lines(state, lines, k) is Ok,
        cache_wf(after_lines(state, lines, k).unwrap().cache),
        cache_wf(after_lines(state, lines, n).unwrap().cache),
        extends(
            after_lines(state, lines, k).unwrap().cache,
            after_lines(state, lines, n).unwrap().cache,
        ),
    decreases n,
{
    if n > 0 {
        let m = (n - 1) as nat;
        let mid = after_lines(state, lines, m).unwrap();
        let end = after_lines(state, lines, n).unwrap();
        lemma_run_extends(state, lines, if k < n { k } else { m }, m);
        lemma_line_extends(mid, lines[n - 1], end);
        if k < n {
            let start = after_lines(state, lines, k).unwrap();
            assert forall|i: int| 0 <= i < start.cache.len() implies (#[trigger] end.cache[i]).code
                == start.cache[i].code && (start.cache[i].name.len() > 0 ==> end.cache[i].name
                == start.cache[i].name) by {
                assert(mid.cache[i].code == start.cache[i].code);
            }
        }
    }
}

/// One record of the second pass: it succeeds as in the first pass, and the
/// second pass goes on trailing the first.
proof fn lemma_refeed_record(
    u0: ParserView,
    t0: ParserView,
    goal: ParserView,
    tokens: Seq<Seq<u8>>,
    count: nat,
    u1: ParserView,
)
    requires
        cache_wf(u0.cache),
        cache_wf(t0.cache),
        cache_wf(goal.cache),
        count <= FIELD_SLOTS,
        trails(u0, t0, goal),
        t0.anchor == u0.anchor,
        after_record(u0, tokens, count) == Ok::<ParserView, FeedError>(u1),
        extends(u1.cache, goal.cache),
    ensures
        after_record(t0, tokens, count) is Ok,
        cache_wf(after_record(t0, tokens, count).unwrap().cache),
        trails(u1, after_record(t0, tokens, count).unwrap(), goal),
        after_record(t0, tokens, count).unwrap().anchor == u1.anchor,
{
    let code = tokens[1];
    let stamp = record_stamp(u0.anchor, tokens, count).unwrap();
    lemma_record_entry(u0, tokens, count, u1);
    let j = index_of_code(u1.cache, code);
    assert(goal.cache[j].code == u1.cache[j].code);
    assert(entry_trails(u0.cache, j, t0.cache[j], goal.cache[j]));
    lemma_index_unique(t0.cache, code, j);
    let tstart = t0.cache[j];
    let tsnap = updated(tstart, tokens, count, stamp);
    let t1 = after_record(t0, tokens, count).unwrap();
    assert(t1.cache == t0.cache.update(j, tsnap));
    lemma_written_len(tstart.fields, tokens, count);
    lemma_stored_wf(t0.cache, tsnap);
    let ustart = entry_for(u0.cache, code);
    let usnap = updated(ustart, tokens, count, stamp);
    assert(u1.cache[j] == usnap);
    if has_code(u0.cache, code) {
        let j0 = index_of_code(u0.cache, code);
        assert(u1.cache[j0].code == code);
        lemma_index_unique(u1.cache, code, j0);
        assert(j0 == j);
    } else {
        assert(u1.cache[u0.cache.len() as int].code == code);
        lemma_index_unique(u1.cache, code, u0.cache.len() as int);
        assert(j == u0.cache.len());
    }
    assert forall|i: int| 0 <= i < t1.cache.len() implies entry_trails(
        u1.cache,
        i,
        #[trigger] t1.cache[i],
        goal.cache[i],
    ) by {
        assert(entry_trails(u0.cache, i, t0.cache[i], goal.cache[i]));
        if i == j {
            let x = t1.cache[i];
            let g = goal.cache[i];
            assert(x == tsnap);
            assert forall|s: int| 0 <= s < FIELD_SLOTS implies #[trigger] x.fields[s] == g.fields[s] || (
            i < u1.cache.len() && x.fields[s] == u1.cache[i].fields[s]) by {
                lemma_written_at(tstart.fields, tokens, count, s);
                lemma_written_at(ustart.fields, tokens, count, s);
                assert(tstart.fields[s] == g.fields[s] || (i < u0.cache.len() && tstart.fields[s]
                    == u0.cache[i].fields[s]));
            }
            assert(x.name == g.name || x.name == u1.cache[i].name) by {
                if tstart.name != g.name || g.name.len() == 0 {
                    if ustart.name.len() > 0 {
                        assert(usnap.name == ustart.name);
                        assert(g.name == u1.cache[j].name);
                    }
                }
            }
        } else {
            assert(t1.cache[i] == t0.cache[i]);
            if i < u0.cache.len() {
                assert(u1.cache[i] == u0.cache[i]);
            }
        }
    }
}

/// The first `k` lines of the second pass are read without error, and the second
/// pass trails the first.
proof fn lemma_refeed_prefix(state: ParserView, lines: Seq<Seq<u8>>, first: ParserView, k: nat)
    requires
        cache_wf(state.cache),
        after_lines(state, lines, lines.len()) == Ok::<ParserView, FeedError>(first),
        anchored(state, lines, first),
        k <= lines.len(),
    ensures
        after_lines(state, lines, k) is Ok,
        after_lines(first, lines, k) is Ok,
        cache_wf(after_lines(first, lines, k).unwrap().cache),
        trails(after_lines(state, lines, k).unwrap(), after_lines(first, lines, k).unwrap(), first),
        k >= 1 || state.anchor == first.anchor ==> after_lines(first, lines, k).unwrap().anchor
            == after_lines(state, lines, k).unwrap().anchor,
    decreases k,
{
    lemma_run_extends(state, lines, k, lines.len());
    if k == 0 {
        assert forall|i: int| 0 <= i < first.cache.len() implies entry_trails(
            state.cache,
            i,
            #[trigger] first.cache[i],
            first.cache[i],
        ) by {}
    } else {
        let j = (k - 1) as nat;
        lemma_refeed_prefix(state, lines, first, j);
        lemma_run_extends(state, lines, j, lines.len());
        let u0 = after_lines(state, lines, j).unwrap();
        let t0 = after_lines(first, lines, j).unwrap();
        let u1 = after_lines(state, lines, k).unwrap();
        let line = lines[k - 1];
        let tokens = split(line);
        assert(after_line(u0, line) == Ok::<ParserView, FeedError>(u1));
        match kind_of(tokens[0]) {
            None => {},
            Some(RecordKind::Header) => {
                let t1 = after_line(t0, line).unwrap();
                assert(t1.cache == t0.cache);
                assert(u1.cache == u0.cache);
            },
            Some(kind) => {
                lemma_refeed_record(u0, t0, first, tokens, kind.field_count_spec(), u1);
            },
        }
    }
}

/// Feeding the same lines again changes nothing but the changed flags. Where a
/// parser has read the lines without error, and they settle the anchor before any
/// record reads it, it reads them a second time without error and ends with the
/// same anchor and the same snapshots: codes, names, fields and timestamps.
pub proof fn lemma_refeed(state: ParserView, lines: Seq<Seq<u8>>, first: ParserView)
    requires
        cache_wf(state.cache),
        after_lines(state, lines, lines.len()) == Ok::<ParserView, FeedError>(first),
        anchored(state, lines, first),
    ensures
        after_lines(first, lines, lines.len()) is Ok,
        same_but_flags(after_lines(first, lines, lines.len()).unwrap(), first),
{
    lemma_refeed_prefix(state, lines, first, lines.len());
    lemma_run_extends(state, lines, lines.len(), lines.len());
    let second = after_lines(first, lines, lines.len()).unwrap();
    if lines.len() == 0 {
        assert(second == first);
    }
    assert forall|i: int| 0 <= i < second.cache.len() implies same_but_flag(
        #[trigger] second.cache[i],
        first.cache[i],
    ) by {
        assert(entry_trails(first.cache, i, second.cache[i], first.cache[i]));
        assert(second.cache[i].fields =~= first.cache[i].fields);
    }
}

} // verus!
