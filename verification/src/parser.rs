//! The line parser: it routes each line by its identifier and keeps one snapshot
//! per instrument code, together with the anchor date of the file being read.

use crate::field::kind_of;
use crate::field::classify;
use crate::field::RecordKind;
use crate::field::FIELD_SLOTS;
use crate::snapshot::fresh_view;
use crate::snapshot::lemma_written_len;
use crate::snapshot::lemma_written_slots;
use crate::snapshot::written;
use crate::snapshot::field_token;
use crate::field::field_table;
use crate::decimal::packed_of;
use crate::snapshot::updated;
use crate::snapshot::Snapshot;
use crate::snapshot::SnapshotView;
use crate::timestamp::header_anchor;
use crate::timestamp::now_millis;
use crate::timestamp::read_header_anchor;
use crate::timestamp::read_record_instant;
use crate::timestamp::record_instant;
use crate::tokens::split;
use crate::tokens::split_line;
use crate::tokens::token_views;
use vstd::prelude::*;

verus! {

/// Why a line stopped the reading of a file.
#[derive(Debug, Clone, Copy, PartialEq, Eq, Structural)]
pub enum FeedError {
    /// A record has fewer tokens than its kind lists.
    InvalidRow,
    /// A date-time or time-of-day token is present but cannot be read.
    InvalidTimestamp,
}

/// The parser's state as a mathematical value.
pub struct ParserView {
    /// The anchor instant; its calendar date is the date of every record's time.
    pub anchor: i64,
    /// The snapshots, in the order in which their codes first appeared.
    pub cache: Seq<SnapshotView>,
}

/// Whether the cache holds a snapshot for `code`.
pub open spec fn has_code(cache: Seq<SnapshotView>, code: Seq<u8>) -> bool {
    exists|i: int| 0 <= i < cache.len() && (#[trigger] cache[i]).code == code
}

/// The place of the snapshot for `code`, where the cache holds one.
pub open spec fn index_of_code(cache: Seq<SnapshotView>, code: Seq<u8>) -> int {
    choose|i: int| 0 <= i < cache.len() && (#[trigger] cache[i]).code == code
}

/// The snapshot that a record for `code` starts from: the cached one, or a fresh
/// one where the code is new.
pub open spec fn entry_for(cache: Seq<SnapshotView>, code: Seq<u8>) -> SnapshotView {
    if has_code(cache, code) {
        cache[index_of_code(cache, code)]
    } else {
        fresh_view(code)
    }
}

/// The cache with `snap` stored under its code: in place of the snapshot that was
/// there, or at the end where the code is new.
pub open spec fn stored(cache: Seq<SnapshotView>, snap: SnapshotView) -> Seq<SnapshotView> {
    if has_code(cache, snap.code) {
        cache.update(index_of_code(cache, snap.code), snap)
    } else {
        cache.push(snap)
    }
}

/// A cache is well formed when every snapshot has all its slots and no code
/// occurs twice.
pub open spec fn cache_wf(cache: Seq<SnapshotView>) -> bool {
    &&& forall|i: int| 0 <= i < cache.len() ==> (#[trigger] cache[i]).fields.len() == FIELD_SLOTS
    &&& forall|i: int, j: int|
        0 <= i < j < cache.len() ==> (#[trigger] cache[i]).code != (#[trigger] cache[j]).code
}

/// The instant that a record with `count` numeric tokens carries. A record may
/// end before its time token; one that has it must have a readable one.
pub open spec fn record_stamp(anchor: i64, tokens: Seq<Seq<u8>>, count: nat) -> Result<
    Option<i64>,
    FeedError,
> {
    if tokens.len() < 3 + count {
        Err(FeedError::InvalidRow)
    } else if tokens.len() <= 4 + count {
        Ok(None)
    } else {
        match record_instant(anchor, tokens[4 + count as int]) {
            Some(ms) => Ok(Some(ms)),
            None => Err(FeedError::InvalidTimestamp),
        }
    }
}

/// The state after a market-data record with `count` numeric tokens, or the error
/// that it stops with.
pub open spec fn after_record(state: ParserView, tokens: Seq<Seq<u8>>, count: nat) -> Result<
    ParserView,
    FeedError,
> {
    match record_stamp(state.anchor, tokens, count) {
        Err(e) => Err(e),
        Ok(stamp) => Ok(
            ParserView {
                anchor: state.anchor,
                cache: stored(
                    state.cache,
                    updated(entry_for(state.cache, tokens[1]), tokens, count, stamp),
                ),
            },
        ),
    }
}

/// The state after a header, or the error that it stops with. Only token 6 is
/// read; a header that ends before it changes nothing.
pub open spec fn after_header(state: ParserView, tokens: Seq<Seq<u8>>) -> Result<
    ParserView,
    FeedError,
> {
    if tokens.len() <= 6 {
        Ok(state)
    } else {
        match header_anchor(tokens[6]) {
            Some(ms) => Ok(ParserView { anchor: ms, cache: state.cache }),
            None => Err(FeedError::InvalidTimestamp),
        }
    }
}

/// The state after the tokens of one line, or the error that they stop with. A
/// line whose identifier is unknown changes nothing.
pub open spec fn after_tokens(state: ParserView, tokens: Seq<Seq<u8>>) -> Result<
    ParserView,
    FeedError,
> {
    match kind_of(tokens[0]) {
        None => Ok(state),
        Some(RecordKind::Header) => after_header(state, tokens),
        Some(kind) => after_record(state, tokens, kind.field_count_spec()),
    }
}

/// The state after one line, or the error that it stops with.
pub open spec fn after_line(state: ParserView, line: Seq<u8>) -> Result<ParserView, FeedError> {
    after_tokens(state, split(line))
}

/// The state after the first `count` lines, or the first error among them. Lines
/// after an error are not read.
pub open spec fn after_lines(state: ParserView, lines: Seq<Seq<u8>>, count: nat) -> Result<
    ParserView,
    FeedError,
>
    decreases count,
{
    if count == 0 {
        Ok(state)
    } else {
        match after_lines(state, lines, (count - 1) as nat) {
            Err(e) => Err(e),
            Ok(mid) => after_line(mid, lines[count - 1]),
        }
    }
}

/// Whether two byte strings are equal.
pub fn bytes_eq(a: &[u8], b: &[u8]) -> (same: bool)
    ensures
        same == (a@ == b@),
{
    if a.len() != b.len() {
        return false;
    }
    let mut i: usize = 0;
    while i < a.len()
        invariant
            i <= a.len(),
            a.len() == b.len(),
            forall|j: int| 0 <= j < i ==> a@[j] == b@[j],
        decreases a.len() - i,
    {
        if a[i] != b[i] {
            return false;
        }
        i = i + 1;
    }
    assert(a@ =~= b@);
    true
}

/// The decoder of a feed: the anchor date of the file being read and the last
/// known snapshot of every instrument seen so far. Snapshots are never dropped.
pub struct MktdtParser {
    file_time: i64,
    cached: Vec<Snapshot>,
}

impl View for MktdtParser {
    type V = ParserView;

    closed spec fn view(&self) -> ParserView {
        ParserView {
            anchor: self.file_time,
            cache: Seq::new(self.cached@.len(), |i: int| self.cached@[i]@),
        }
    }
}

impl MktdtParser {
    /// The parser's invariant: that of its cache.
    pub open spec fn wf(&self) -> bool {
        cache_wf(self@.cache)
    }

    /// A parser with an empty cache, anchored at the present instant until a header
    /// says otherwise.
    pub fn new() -> (p: MktdtParser)
        ensures
            p.wf(),
            p@.cache.len() == 0,
    {
        MktdtParser::with_anchor(now_millis())
    }

    /// A parser with an empty cache and the given anchor.
    pub fn with_anchor(anchor: i64) -> (p: MktdtParser)
        ensures
            p.wf(),
            p@.anchor == anchor,
            p@.cache.len() == 0,
    {
        MktdtParser { file_time: anchor, cached: Vec::new() }
    }

    /// The anchor instant, in milliseconds since the epoch.
    pub fn anchor(&self) -> (a: i64)
        ensures
            a == self@.anchor,
    {
        self.file_time
    }

    /// The number of instruments seen so far.
    pub fn len(&self) -> (n: usize)
        ensures
            n == self@.cache.len(),
    {
        self.cached.len()
    }

    /// The place of the snapshot for `code` in the cache, if there is one.
    pub fn position(&self, code: &[u8]) -> (r: Option<usize>)
        requires
            self.wf(),
        ensures
            match r {
                Some(i) => has_code(self@.cache, code@) && i == index_of_code(self@.cache, code@),
                None => !has_code(self@.cache, code@),
            },
    {
        let mut i: usize = 0;
        while i < self.cached.len()
            invariant
                i <= self.cached@.len(),
                self.wf(),
                forall|j: int| 0 <= j < i ==> (#[trigger] self@.cache[j]).code != code@,
            decreases self.cached.len() - i,
        {
            if bytes_eq(self.cached[i].code(), code) {
                proof {
                    assert(self@.cache[i as int].code == code@);
                    lemma_index_unique(self@.cache, code@, i as int);
                }
                return Some(i);
            }
            i = i + 1;
        }
        None
    }

    /// The snapshot for `code`, if a record has named it.
    pub fn get(&self, code: &[u8]) -> (r: Option<&Snapshot>)
        requires
            self.wf(),
        ensures
            match r {
                Some(s) => has_code(self@.cache, code@) && s@ == entry_for(self@.cache, code@)
                    && s.wf(),
                None => !has_code(self@.cache, code@),
            },
    {
        match self.position(code) {
            Some(i) => {
                assert(self@.cache[i as int] == self.cached@[i as int]@);
                Some(&self.cached[i])
            },
            None => None,
        }
    }

    /// Reads a header from the tokens of its line: token 6 becomes the anchor.
    pub fn parse_header(&mut self, tokens: &Vec<Vec<u8>>) -> (r: Result<(), FeedError>)
        requires
            old(self).wf(),
        ensures
            final(self).wf(),
            match r {
                Ok(_) => after_header(old(self)@, token_views(tokens@)) == Ok::<
                    ParserView,
                    FeedError,
                >(final(self)@),
                Err(e) => after_header(old(self)@, token_views(tokens@)) == Err::<
                    ParserView,
                    FeedError,
                >(e) && *final(self) == *old(self),
            },
    {
        if tokens.len() <= 6 {
            return Ok(());
        }
        match read_header_anchor(tokens[6].as_slice()) {
            Some(ms) => {
                self.file_time = ms;
                assert(self@.cache =~= old(self)@.cache);
                Ok(())
            },
            None => Err(FeedError::InvalidTimestamp),
        }
    }

    /// Reads a market-data record from the tokens of its line, `count` of them
    /// numeric. Nothing is changed unless the whole record can be applied.
    pub fn parse_md00(&mut self, tokens: &Vec<Vec<u8>>, count: usize) -> (r: Result<(), FeedError>)
        requires
            old(self).wf(),
            count <= FIELD_SLOTS,
        ensures
            final(self).wf(),
            match r {
                Ok(_) => after_record(old(self)@, token_views(tokens@), count as nat) == Ok::<
                    ParserView,
                    FeedError,
                >(final(self)@),
                Err(e) => after_record(old(self)@, token_views(tokens@), count as nat) == Err::<
                    ParserView,
                    FeedError,
                >(e) && *final(self) == *old(self),
            },
    {
        let ghost toks = token_views(tokens@);
        let ghost before = self@;
        if tokens.len() < 3 + count {
            return Err(FeedError::InvalidRow);
        }
        let stamp = if tokens.len() > 4 + count {
            match read_record_instant(self.file_time, tokens[4 + count].as_slice()) {
                Some(ms) => Some(ms),
                None => {
                    return Err(FeedError::InvalidTimestamp);
                },
            }
        } else {
            None
        };
        assert(record_stamp(before.anchor, toks, count as nat) == Ok::<Option<i64>, FeedError>(stamp));
        let code = tokens[1].as_slice();
        let found = self.position(code);
        let index = match found {
            Some(i) => i,
            None => {
                self.cached.push(Snapshot::fresh(code));
                self.cached.len() - 1
            },
        };
        let ghost start = entry_for(before.cache, toks[1]);
        assert(self.cached@[index as int]@ == start);
        let ghost mid = self.cached@;
        self.cached[index].apply(tokens, count, stamp);
        proof {
            let next = updated(start, toks, count as nat, stamp);
            assert(self.cached@ == mid.update(index as int, self.cached@[index as int]));
            assert(self.cached@[index as int]@ == next);
            assert(next.code == toks[1]);
            assert(self@.cache =~= stored(before.cache, next));
            lemma_written_len(start.fields, toks, count as nat);
            lemma_stored_wf(before.cache, next);
        }
        Ok(())
    }

    /// Reads an `MD001` record from the tokens of its line.
    pub fn parse_md001(&mut self, tokens: &Vec<Vec<u8>>) -> (r: Result<(), FeedError>)
        requires
            old(self).wf(),
        ensures
            final(self).wf(),
            match r {
                Ok(_) => after_record(old(self)@, token_views(tokens@), 8) == Ok::<
                    ParserView,
                    FeedError,
                >(final(self)@),
                Err(e) => after_record(old(self)@, token_views(tokens@), 8) == Err::<
                    ParserView,
                    FeedError,
                >(e) && *final(self) == *old(self),
            },
    {
        self.parse_md00(tokens, RecordKind::Md001.field_count())
    }

    /// Reads an `MD002` record from the tokens of its line.
    pub fn parse_md002(&mut self, tokens: &Vec<Vec<u8>>) -> (r: Result<(), FeedError>)
        requires
            old(self).wf(),
        ensures
            final(self).wf(),
            match r {
                Ok(_) => after_record(old(self)@, token_views(tokens@), 28) == Ok::<
                    ParserView,
                    FeedError,
                >(final(self)@),
                Err(e) => after_record(old(self)@, token_views(tokens@), 28) == Err::<
                    ParserView,
                    FeedError,
                >(e) && *final(self) == *old(self),
            },
    {
        self.parse_md00(tokens, RecordKind::Md002.field_count())
    }

    /// Reads an `MD003` record from the tokens of its line; it is laid out as
    /// `MD002`.
    pub fn parse_md003(&mut self, tokens: &Vec<Vec<u8>>) -> (r: Result<(), FeedError>)
        requires
            old(self).wf(),
        ensures
            final(self).wf(),
            match r {
                Ok(_) => after_record(old(self)@, token_views(tokens@), 28) == Ok::<
                    ParserView,
                    FeedError,
                >(final(self)@),
                Err(e) => after_record(old(self)@, token_views(tokens@), 28) == Err::<
                    ParserView,
                    FeedError,
                >(e) && *final(self) == *old(self),
            },
    {
        self.parse_md002(tokens)
    }

    /// Reads an `MD004` record from the tokens of its line.
    pub fn parse_md004(&mut self, tokens: &Vec<Vec<u8>>) -> (r: Result<(), FeedError>)
        requires
            old(self).wf(),
        ensures
            final(self).wf(),
            match r {
                Ok(_) => after_record(old(self)@, token_views(tokens@), 30) == Ok::<
                    ParserView,
                    FeedError,
                >(final(self)@),
                Err(e) => after_record(old(self)@, token_views(tokens@), 30) == Err::<
                    ParserView,
                    FeedError,
                >(e) && *final(self) == *old(self),
            },
    {
        self.parse_md00(tokens, RecordKind::Md004.field_count())
    }

    /// Reads one line, its terminator already taken off. A line that fails leaves
    /// the parser as it was.
    pub fn parse_line(&mut self, line: &[u8]) -> (r: Result<(), FeedError>)
        requires
            old(self).wf(),
        ensures
            final(self).wf(),
            match r {
                Ok(_) => after_line(old(self)@, line@) == Ok::<ParserView, FeedError>(final(self)@),
                Err(e) => after_line(old(self)@, line@) == Err::<ParserView, FeedError>(e)
                    && *final(self) == *old(self),
            },
    {
        let tokens = split_line(line);
        match classify(tokens[0].as_slice()) {
            None => Ok(()),
            Some(RecordKind::Header) => self.parse_header(&tokens),
            Some(RecordKind::Md001) => self.parse_md001(&tokens),
            Some(RecordKind::Md002) => self.parse_md002(&tokens),
            Some(RecordKind::Md003) => self.parse_md003(&tokens),
            Some(RecordKind::Md004) => self.parse_md004(&tokens),
        }
    }

    /// Reads the lines of a file in order and stops at the first that fails. The
    /// lines before it stay applied.
    pub fn parse_lines(&mut self, lines: &Vec<Vec<u8>>) -> (r: Result<(), FeedError>)
        requires
            old(self).wf(),
        ensures
            final(self).wf(),
            match r {
                Ok(_) => after_lines(old(self)@, token_views(lines@), lines@.len()) == Ok::<
                    ParserView,
                    FeedError,
                >(final(self)@),
                Err(e) => after_lines(old(self)@, token_views(lines@), lines@.len()) == Err::<
                    ParserView,
                    FeedError,
                >(e),
            },
    {
        let ghost all = token_views(lines@);
        let ghost before = self@;
        let mut i: usize = 0;
        while i < lines.len()
            invariant
                i <= lines@.len(),
                self.wf(),
                all == token_views(lines@),
                before == old(self)@,
                after_lines(before, all, i as nat) == Ok::<ParserView, FeedError>(self@),
            decreases lines.len() - i,
        {
            match self.parse_line(lines[i].as_slice()) {
                Ok(_) => {},
                Err(e) => {
                    proof {
                        assert(all[i as int] == lines@[i as int]@);
                        assert(after_lines(before, all, (i + 1) as nat) == Err::<
                            ParserView,
                            FeedError,
                        >(e));
                        lemma_error_stays(before, all, (i + 1) as nat, lines@.len());
                    }
                    return Err(e);
                },
            }
            i = i + 1;
        }
        Ok(())
    }
}

/// In a well-formed cache the place of a code is the only place that holds it.
pub proof fn lemma_index_unique(cache: Seq<SnapshotView>, code: Seq<u8>, i: int)
    requires
        cache_wf(cache),
        0 <= i < cache.len(),
        cache[i].code == code,
    ensures
        has_code(cache, code),
        index_of_code(cache, code) == i,
{
    let j = index_of_code(cache, code);
    if j < i {
        assert(cache[j].code != cache[i].code);
    } else if i < j {
        assert(cache[i].code != cache[j].code);
    }
}

/// Storing a snapshot with all its slots keeps the cache well formed.
pub proof fn lemma_stored_wf(cache: Seq<SnapshotView>, snap: SnapshotView)
    requires
        cache_wf(cache),
        snap.fields.len() == FIELD_SLOTS,
    ensures
        cache_wf(stored(cache, snap)),
{
    let out = stored(cache, snap);
    if has_code(cache, snap.code) {
        let k = index_of_code(cache, snap.code);
        assert forall|i: int, j: int| 0 <= i < j < out.len() implies (#[trigger] out[i]).code != (
        #[trigger] out[j]).code by {
            assert(out[i].code == cache[i].code);
            assert(out[j].code == cache[j].code);
        }
    } else {
        assert forall|i: int, j: int| 0 <= i < j < out.len() implies (#[trigger] out[i]).code != (
        #[trigger] out[j]).code by {
            if j == cache.len() {
                assert(cache[i].code != snap.code);
            } else {
                assert(out[i].code == cache[i].code);
                assert(out[j].code == cache[j].code);
            }
        }
    }
}

/// Once a line has failed, the error is that of the whole file.
pub proof fn lemma_error_stays(state: ParserView, lines: Seq<Seq<u8>>, at: nat, count: nat)
    requires
        at <= count,
        after_lines(state, lines, at) is Err,
    ensures
        after_lines(state, lines, count) == after_lines(state, lines, at),
    decreases count,
{
    if at < count {
        lemma_error_stays(state, lines, at, (count - 1) as nat);
    }
}

/// After a snapshot is stored, its code leads to it, it is the only snapshot
/// with that code, and every other code leads to what it led to before.
pub proof fn lemma_stored_lookup(cache: Seq<SnapshotView>, snap: SnapshotView)
    requires
        cache_wf(cache),
        snap.fields.len() == FIELD_SLOTS,
    ensures
        cache_wf(stored(cache, snap)),
        has_code(stored(cache, snap), snap.code),
        entry_for(stored(cache, snap), snap.code) == snap,
        stored(cache, snap).len() == cache.len() + (if has_code(cache, snap.code) {
            0int
        } else {
            1int
        }),
        forall|other: Seq<u8>|
            other != snap.code ==> {
                &&& #[trigger] has_code(stored(cache, snap), other) == has_code(cache, other)
                &&& entry_for(stored(cache, snap), other) == entry_for(cache, other)
            },
{
    let out = stored(cache, snap);
    lemma_stored_wf(cache, snap);
    let k = if has_code(cache, snap.code) {
        index_of_code(cache, snap.code)
    } else {
        cache.len() as int
    };
    assert(out[k] == snap);
    lemma_index_unique(out, snap.code, k);
    assert forall|other: Seq<u8>| other != snap.code implies {
        &&& #[trigger] has_code(out, other) == has_code(cache, other)
        &&& entry_for(out, other) == entry_for(cache, other)
    } by {
        if has_code(cache, other) {
            let i = index_of_code(cache, other);
            assert(out[i] == cache[i]);
            lemma_index_unique(out, other, i);
        }
        if has_code(out, other) {
            let i = index_of_code(out, other);
            assert(i != k);
            assert(cache[i] == out[i]);
            lemma_index_unique(cache, other, i);
        }
    }
}

/// A record leaves exactly one snapshot for its code: it adds one where the code
/// is new and none where it is known, and the snapshot is the one that the record
/// starts from with the record applied. Snapshots of other codes stay as they
/// were, and so does the anchor.
pub proof fn lemma_record_entry(
    state: ParserView,
    tokens: Seq<Seq<u8>>,
    count: nat,
    next: ParserView,
)
    requires
        cache_wf(state.cache),
        count <= FIELD_SLOTS,
        after_record(state, tokens, count) == Ok::<ParserView, FeedError>(next),
    ensures
        cache_wf(next.cache),
        next.anchor == state.anchor,
        has_code(next.cache, tokens[1]),
        forall|i: int, j: int|
            0 <= i < next.cache.len() && 0 <= j < next.cache.len() && (#[trigger] next.cache[i]).code
                == tokens[1] && (#[trigger] next.cache[j]).code == tokens[1] ==> i == j,
        next.cache.len() == state.cache.len() + (if has_code(state.cache, tokens[1]) {
            0int
        } else {
            1int
        }),
        record_stamp(state.anchor, tokens, count) is Ok,
        entry_for(next.cache, tokens[1]) == updated(
            entry_for(state.cache, tokens[1]),
            tokens,
            count,
            record_stamp(state.anchor, tokens, count).unwrap(),
        ),
        forall|other: Seq<u8>|
            other != tokens[1] ==> {
                &&& #[trigger] has_code(next.cache, other) == has_code(state.cache, other)
                &&& entry_for(next.cache, other) == entry_for(state.cache, other)
            },
{
    let start = entry_for(state.cache, tokens[1]);
    let stamp = record_stamp(state.anchor, tokens, count).unwrap();
    let snap = updated(start, tokens, count, stamp);
    lemma_written_len(start.fields, tokens, count);
    lemma_stored_lookup(state.cache, snap);
    assert forall|i: int, j: int|
        0 <= i < next.cache.len() && 0 <= j < next.cache.len() && (#[trigger] next.cache[i]).code
            == tokens[1] && (#[trigger] next.cache[j]).code == tokens[1] implies i == j by {
        if i < j {
            assert(next.cache[i].code != next.cache[j].code);
        } else if j < i {
            assert(next.cache[j].code != next.cache[i].code);
        }
    }
}

/// The name of a snapshot is set by the first record that brings one: a record
/// for a new code gives the snapshot the record's name token, and a record for a
/// code whose snapshot has a name leaves that name, whatever its own name token.
pub proof fn lemma_record_name(
    state: ParserView,
    tokens: Seq<Seq<u8>>,
    count: nat,
    next: ParserView,
)
    requires
        cache_wf(state.cache),
        count <= FIELD_SLOTS,
        after_record(state, tokens, count) == Ok::<ParserView, FeedError>(next),
    ensures
        !has_code(state.cache, tokens[1]) ==> entry_for(next.cache, tokens[1]).name == tokens[2],
        has_code(state.cache, tokens[1]) && entry_for(state.cache, tokens[1]).name.len() > 0
            ==> entry_for(next.cache, tokens[1]).name == entry_for(state.cache, tokens[1]).name,
{
    lemma_record_entry(state, tokens, count, next);
}

/// A record with `count` numeric tokens fills, in the snapshot of its code, the
/// slots of the first `count` positions of the field table, each with the packed
/// decimal of its own token, and leaves every other slot of that snapshot as it
/// was: zero where the code is new.
pub proof fn lemma_record_fields(
    state: ParserView,
    tokens: Seq<Seq<u8>>,
    count: nat,
    next: ParserView,
)
    requires
        cache_wf(state.cache),
        count <= FIELD_SLOTS,
        after_record(state, tokens, count) == Ok::<ParserView, FeedError>(next),
    ensures
        entry_for(next.cache, tokens[1]).fields.len() == FIELD_SLOTS,
        forall|i: int|
            0 <= i < count ==> entry_for(next.cache, tokens[1]).fields[(
            #[trigger] field_table()[i]).slot_spec() as int] == packed_of(field_token(tokens, i)),
        forall|s: int|
            0 <= s < FIELD_SLOTS && (forall|i: int|
                0 <= i < count ==> (#[trigger] field_table()[i]).slot_spec() != s)
                ==> #[trigger] entry_for(next.cache, tokens[1]).fields[s] == entry_for(
                state.cache,
                tokens[1],
            ).fields[s],
{
    lemma_record_entry(state, tokens, count, next);
    let start = entry_for(state.cache, tokens[1]);
    assert(start.fields.len() == FIELD_SLOTS);
    lemma_written_slots(start.fields, tokens, count);
    assert(entry_for(next.cache, tokens[1]).fields == written(start.fields, tokens, count));
}

} // verus!
