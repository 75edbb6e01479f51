//! The last known state of one instrument, and how a record changes it.

use crate::decimal::packed_of;
use crate::decimal::Decimal;
use crate::field::field_table;
use crate::field::lemma_table_slots_distinct;
use crate::field::table_entry;
use crate::field::Field;
use crate::field::FIELD_SLOTS;
use crate::tokens::token_views;
use vstd::prelude::*;
use vstd::slice::slice_to_vec;

verus! {

/// The identity of an instrument.
#[derive(Debug)]
pub struct Symbol {
    /// The market identifier; zero throughout this feed.
    pub market: i32,
    /// The instrument code, as the bytes of its text.
    pub code: Vec<u8>,
}

/// The last known state of one instrument.
#[derive(Debug)]
pub struct Snapshot {
    symbol: Symbol,
    name: Vec<u8>,
    fields: Vec<i64>,
    timestamp: Option<i64>,
    changed: bool,
}

/// A snapshot as a mathematical value.
pub struct SnapshotView {
    /// The market identifier.
    pub market: i32,
    /// The instrument code.
    pub code: Seq<u8>,
    /// The display name; empty until a record gives one.
    pub name: Seq<u8>,
    /// The packed decimal in each field slot.
    pub fields: Seq<i64>,
    /// The instant of the latest record that carried a time, in milliseconds.
    pub timestamp: Option<i64>,
    /// Whether the last field written by the latest record differed from the
    /// value that its slot held just before. Only that last comparison counts:
    /// the flag is no summary over all the fields of the record.
    pub changed: bool,
}

/// The state of an instrument that no record has touched yet.
pub open spec fn fresh_view(code: Seq<u8>) -> SnapshotView {
    SnapshotView {
        market: 0,
        code,
        name: Seq::empty(),
        fields: Seq::new(FIELD_SLOTS as nat, |i: int| 0i64),
        timestamp: None,
        changed: true,
    }
}

/// The token of a record that fills position `i` of the field table. Tokens 0, 1
/// and 2 are the identifier, the code and the name.
pub open spec fn field_token(tokens: Seq<Seq<u8>>, i: int) -> Seq<u8> {
    tokens[3 + i]
}

/// The slots after the first `count` numeric tokens of a record were written, each
/// into the slot that the field table names for its position.
pub open spec fn written(fields: Seq<i64>, tokens: Seq<Seq<u8>>, count: nat) -> Seq<i64>
    decreases count,
{
    if count == 0 {
        fields
    } else {
        written(fields, tokens, (count - 1) as nat).update(
            field_table()[count - 1].slot_spec() as int,
            packed_of(field_token(tokens, count - 1)),
        )
    }
}

/// The flag after `count` numeric tokens were written: whether the last of them
/// differed from what its slot held just before that write.
pub open spec fn changed_after(
    flag: bool,
    fields: Seq<i64>,
    tokens: Seq<Seq<u8>>,
    count: nat,
) -> bool {
    if count == 0 {
        flag
    } else {
        written(fields, tokens, (count - 1) as nat)[field_table()[count - 1].slot_spec() as int]
            != packed_of(field_token(tokens, count - 1))
    }
}

/// The snapshot after a record with `count` numeric tokens: the name is taken from
/// token 2 only while the snapshot has none, the fields are written, and the
/// timestamp is replaced where the record carried one.
pub open spec fn updated(
    snap: SnapshotView,
    tokens: Seq<Seq<u8>>,
    count: nat,
    stamp: Option<i64>,
) -> SnapshotView {
    SnapshotView {
        market: snap.market,
        code: snap.code,
        name: if snap.name.len() == 0 {
            tokens[2]
        } else {
            snap.name
        },
        fields: written(snap.fields, tokens, count),
        timestamp: match stamp {
            Some(ms) => Some(ms),
            None => snap.timestamp,
        },
        changed: changed_after(snap.changed, snap.fields, tokens, count),
    }
}

impl View for Snapshot {
    type V = SnapshotView;

    closed spec fn view(&self) -> SnapshotView {
        SnapshotView {
            market: self.symbol.market,
            code: self.symbol.code@,
            name: self.name@,
            fields: self.fields@,
            timestamp: self.timestamp,
            changed: self.changed,
        }
    }
}

impl Snapshot {
    /// A snapshot has one slot for every field.
    pub open spec fn wf(&self) -> bool {
        self@.fields.len() == FIELD_SLOTS
    }

    /// The snapshot of an instrument that no record has touched yet: market zero,
    /// no name, every slot zero, no timestamp, flagged as changed.
    pub fn fresh(code: &[u8]) -> (s: Snapshot)
        ensures
            s@ == fresh_view(code@),
            s.wf(),
    {
        let mut fields: Vec<i64> = Vec::new();
        let mut i: usize = 0;
        while i < FIELD_SLOTS
            invariant
                i <= FIELD_SLOTS,
                fields@.len() == i,
                forall|j: int| 0 <= j < i ==> fields@[j] == 0,
            decreases FIELD_SLOTS - i,
        {
            fields.push(0);
            i = i + 1;
        }
        let s = Snapshot {
            symbol: Symbol { market: 0, code: slice_to_vec(code) },
            name: Vec::new(),
            fields,
            timestamp: None,
            changed: true,
        };
        assert(s@.fields =~= fresh_view(code@).fields);
        assert(s@.name =~= fresh_view(code@).name);
        s
    }

    /// Applies a record: `tokens` are all the tokens of its line, `count` the number
    /// of numeric tokens its kind lists, `stamp` the instant of its time token, if it
    /// had one.
    pub fn apply(&mut self, tokens: &Vec<Vec<u8>>, count: usize, stamp: Option<i64>)
        requires
            old(self).wf(),
            count <= FIELD_SLOTS,
            tokens@.len() >= 3 + count,
        ensures
            final(self)@ == updated(old(self)@, token_views(tokens@), count as nat, stamp),
            final(self).wf(),
    {
        let ghost before = self@;
        let ghost toks = token_views(tokens@);
        if self.name.len() == 0 {
            self.name = slice_to_vec(tokens[2].as_slice());
        }
        let mut i: usize = 0;
        while i < count
            invariant
                i <= count <= FIELD_SLOTS,
                tokens@.len() >= 3 + count,
                toks == token_views(tokens@),
                self.fields@.len() == FIELD_SLOTS,
                self.fields@ == written(before.fields, toks, i as nat),
                self.changed == changed_after(before.changed, before.fields, toks, i as nat),
                self.symbol.market == before.market,
                self.symbol.code@ == before.code,
                self.timestamp == before.timestamp,
                self.name@ == updated(before, toks, 0, None).name,
            decreases count - i,
        {
            let slot = table_entry(i).slot();
            let value = Decimal::parse_bytes(tokens[3 + i].as_slice()).to_i64();
            let old_value = self.fields[slot];
            self.fields.set(slot, value);
            self.changed = old_value != value;
            i = i + 1;
        }
        if let Some(ms) = stamp {
            self.timestamp = Some(ms);
        }
    }

    /// The identity of the instrument.
    pub fn symbol(&self) -> (s: &Symbol)
        ensures
            s.market == self@.market,
            s.code@ == self@.code,
    {
        &self.symbol
    }

    /// The market identifier.
    pub fn market(&self) -> (m: i32)
        ensures
            m == self@.market,
    {
        self.symbol.market
    }

    /// The instrument code.
    pub fn code(&self) -> (c: &[u8])
        ensures
            c@ == self@.code,
    {
        self.symbol.code.as_slice()
    }

    /// The display name; empty until a record gives one.
    pub fn name(&self) -> (n: &[u8])
        ensures
            n@ == self@.name,
    {
        self.name.as_slice()
    }

    /// The packed decimal in the slot of `field`.
    pub fn field(&self, field: Field) -> (v: i64)
        requires
            self.wf(),
        ensures
            v == self@.fields[field.slot_spec() as int],
    {
        self.fields[field.slot()]
    }

    /// The instant of the latest record that carried a time, in milliseconds since
    /// the epoch.
    pub fn timestamp(&self) -> (t: Option<i64>)
        ensures
            t == self@.timestamp,
    {
        self.timestamp
    }

    /// Whether the last field written by the latest record differed from the value
    /// its slot held before.
    pub fn changed(&self) -> (c: bool)
        ensures
            c == self@.changed,
    {
        self.changed
    }
}

/// Writing the numeric tokens of a record keeps the number of slots.
pub proof fn lemma_written_len(fields: Seq<i64>, tokens: Seq<Seq<u8>>, count: nat)
    requires
        fields.len() == FIELD_SLOTS,
        count <= FIELD_SLOTS,
    ensures
        written(fields, tokens, count).len() == FIELD_SLOTS,
    decreases count,
{
    if count > 0 {
        lemma_written_len(fields, tokens, (count - 1) as nat);
    }
}

/// A record with `count` numeric tokens fills exactly the slots that the first
/// `count` positions of the field table name, each with the packed decimal of its
/// own token, and leaves every other slot as it was.
pub proof fn lemma_written_slots(fields: Seq<i64>, tokens: Seq<Seq<u8>>, count: nat)
    requires
        fields.len() == FIELD_SLOTS,
        count <= FIELD_SLOTS,
    ensures
        written(fields, tokens, count).len() == FIELD_SLOTS,
        forall|i: int|
            0 <= i < count ==> written(fields, tokens, count)[(#[trigger] field_table()[i]).slot_spec() as int]
                == packed_of(field_token(tokens, i)),
        forall|s: int|
            0 <= s < FIELD_SLOTS && (forall|i: int|
                0 <= i < count ==> (#[trigger] field_table()[i]).slot_spec() != s)
                ==> #[trigger] written(fields, tokens, count)[s] == fields[s],
    decreases count,
{
    lemma_table_slots_distinct();
    if count > 0 {
        let prev = (count - 1) as nat;
        lemma_written_slots(fields, tokens, prev);
        let w = written(fields, tokens, prev);
        let slot = field_table()[count - 1].slot_spec() as int;
        assert forall|i: int| 0 <= i < count implies written(fields, tokens, count)[(
        #[trigger] field_table()[i]).slot_spec() as int] == packed_of(field_token(tokens, i)) by {
            if i < count - 1 {
                assert(field_table()[i].slot_spec() != field_table()[count - 1].slot_spec());
            }
        }
        assert forall|s: int|
            0 <= s < FIELD_SLOTS && (forall|i: int|
                0 <= i < count ==> (#[trigger] field_table()[i]).slot_spec() != s) implies #[trigger] written(
            fields,
            tokens,
            count,
        )[s] == fields[s] by {
            assert(field_table()[count - 1].slot_spec() != s);
            assert(forall|i: int| 0 <= i < prev ==> (#[trigger] field_table()[i]).slot_spec() != s);
        }
    }
}

/// After a record with `count` numeric tokens, slot `s` holds the packed decimal
/// of the numeric token of that number where the record has one, and what it held
/// before where it has none.
pub proof fn lemma_written_at(fields: Seq<i64>, tokens: Seq<Seq<u8>>, count: nat, s: int)
    requires
        fields.len() == FIELD_SLOTS,
        count <= FIELD_SLOTS,
        0 <= s < FIELD_SLOTS,
    ensures
        written(fields, tokens, count).len() == FIELD_SLOTS,
        written(fields, tokens, count)[s] == if s < count {
            packed_of(field_token(tokens, s))
        } else {
            fields[s]
        },
    decreases count,
{
    lemma_table_slots_distinct();
    if count > 0 {
        lemma_written_at(fields, tokens, (count - 1) as nat, s);
        assert(field_table()[count - 1].slot_spec() == count - 1);
    }
}

} // verus!
