//! The numeric fields of a snapshot, the slot each one occupies, and the order in
//! which each kind of record lists them.

use vstd::prelude::*;

verus! {

/// Number of field slots in every snapshot.
pub const FIELD_SLOTS: usize = 30;

/// A numeric business field of a snapshot.
#[derive(Debug, Clone, Copy, PartialEq, Eq, Structural)]
pub enum Field {
    Volume,
    Amount,
    PreClosePrice,
    OpenPrice,
    HighPrice,
    LowPrice,
    Price,
    ClosePrice,
    Bid1Price,
    Bid1Volume,
    Ask1Price,
    Ask1Volume,
    Bid2Price,
    Bid2Volume,
    Ask2Price,
    Ask2Volume,
    Bid3Price,
    Bid3Volume,
    Ask3Price,
    Ask3Volume,
    Bid4Price,
    Bid4Volume,
    Ask4Price,
    Ask4Volume,
    Bid5Price,
    Bid5Volume,
    Ask5Price,
    Ask5Volume,
    PreIopv,
    Iopv,
}

impl Field {
    /// The slot of the field in a snapshot's array.
    pub open spec fn slot_spec(self) -> nat {
        match self {
            Field::Volume => 0,
            Field::Amount => 1,
            Field::PreClosePrice => 2,
            Field::OpenPrice => 3,
            Field::HighPrice => 4,
            Field::LowPrice => 5,
            Field::Price => 6,
            Field::ClosePrice => 7,
            Field::Bid1Price => 8,
            Field::Bid1Volume => 9,
            Field::Ask1Price => 10,
            Field::Ask1Volume => 11,
            Field::Bid2Price => 12,
            Field::Bid2Volume => 13,
            Field::Ask2Price => 14,
            Field::Ask2Volume => 15,
            Field::Bid3Price => 16,
            Field::Bid3Volume => 17,
            Field::Ask3Price => 18,
            Field::Ask3Volume => 19,
            Field::Bid4Price => 20,
            Field::Bid4Volume => 21,
            Field::Ask4Price => 22,
            Field::Ask4Volume => 23,
            Field::Bid5Price => 24,
            Field::Bid5Volume => 25,
            Field::Ask5Price => 26,
            Field::Ask5Volume => 27,
            Field::PreIopv => 28,
            Field::Iopv => 29,
        }
    }

    /// The slot of the field in a snapshot's array.
    pub fn slot(self) -> (s: usize)
        ensures
            s == self.slot_spec(),
            s < FIELD_SLOTS,
    {
        match self {
            Field::Volume => 0,
            Field::Amount => 1,
            Field::PreClosePrice => 2,
            Field::OpenPrice => 3,
            Field::HighPrice => 4,
            Field::LowPrice => 5,
            Field::Price => 6,
            Field::ClosePrice => 7,
            Field::Bid1Price => 8,
            Field::Bid1Volume => 9,
            Field::Ask1Price => 10,
            Field::Ask1Volume => 11,
            Field::Bid2Price => 12,
            Field::Bid2Volume => 13,
            Field::Ask2Price => 14,
            Field::Ask2Volume => 15,
            Field::Bid3Price => 16,
            Field::Bid3Volume => 17,
            Field::Ask3Price => 18,
            Field::Ask3Volume => 19,
            Field::Bid4Price => 20,
            Field::Bid4Volume => 21,
            Field::Ask4Price => 22,
            Field::Ask4Volume => 23,
            Field::Bid5Price => 24,
            Field::Bid5Volume => 25,
            Field::Ask5Price => 26,
            Field::Ask5Volume => 27,
            Field::PreIopv => 28,
            Field::Iopv => 29,
        }
    }
}

/// The fields in the order in which a record lists them. Every kind of record
/// lists a prefix of this table: the trade summary, then the five-level ladder,
/// then the two fund reference values.
pub open spec fn field_table() -> Seq<Field> {
    seq![
        Field::Volume,
        Field::Amount,
        Field::PreClosePrice,
        Field::OpenPrice,
        Field::HighPrice,
        Field::LowPrice,
        Field::Price,
        Field::ClosePrice,
        Field::Bid1Price,
        Field::Bid1Volume,
        Field::Ask1Price,
        Field::Ask1Volume,
        Field::Bid2Price,
        Field::Bid2Volume,
        Field::Ask2Price,
        Field::Ask2Volume,
        Field::Bid3Price,
        Field::Bid3Volume,
        Field::Ask3Price,
        Field::Ask3Volume,
        Field::Bid4Price,
        Field::Bid4Volume,
        Field::Ask4Price,
        Field::Ask4Volume,
        Field::Bid5Price,
        Field::Bid5Volume,
        Field::Ask5Price,
        Field::Ask5Volume,
        Field::PreIopv,
        Field::Iopv,
    ]
}

/// The field that the numeric token at `position` of a record fills.
pub fn table_entry(position: usize) -> (f: Field)
    requires
        position < FIELD_SLOTS,
    ensures
        f == field_table()[position as int],
{
    match position {
        0 => Field::Volume,
        1 => Field::Amount,
        2 => Field::PreClosePrice,
        3 => Field::OpenPrice,
        4 => Field::HighPrice,
        5 => Field::LowPrice,
        6 => Field::Price,
        7 => Field::ClosePrice,
        8 => Field::Bid1Price,
        9 => Field::Bid1Volume,
        10 => Field::Ask1Price,
        11 => Field::Ask1Volume,
        12 => Field::Bid2Price,
        13 => Field::Bid2Volume,
        14 => Field::Ask2Price,
        15 => Field::Ask2Volume,
        16 => Field::Bid3Price,
        17 => Field::Bid3Volume,
        18 => Field::Ask3Price,
        19 => Field::Ask3Volume,
        20 => Field::Bid4Price,
        21 => Field::Bid4Volume,
        22 => Field::Ask4Price,
        23 => Field::Ask4Volume,
        24 => Field::Bid5Price,
        25 => Field::Bid5Volume,
        26 => Field::Ask5Price,
        27 => Field::Ask5Volume,
        28 => Field::PreIopv,
        _ => Field::Iopv,
    }
}

/// The table names the slots in their own order, so no two positions of it name
/// the same slot, and every slot it names exists.
pub proof fn lemma_table_slots_distinct()
    ensures
        field_table().len() == FIELD_SLOTS,
        forall|i: int| 0 <= i < FIELD_SLOTS ==> (#[trigger] field_table()[i]).slot_spec() == i,
        forall|i: int| 0 <= i < FIELD_SLOTS ==> (#[trigger] field_table()[i]).slot_spec() < FIELD_SLOTS,
        forall|i: int, j: int|
            0 <= i < j < FIELD_SLOTS ==> (#[trigger] field_table()[i]).slot_spec() != (
            #[trigger] field_table()[j]).slot_spec(),
{
    assert forall|i: int| 0 <= i < FIELD_SLOTS implies (#[trigger] field_table()[i]).slot_spec()
        == i by {}
}

/// What a line of the feed is, as its first token says.
#[derive(Debug, Clone, Copy, PartialEq, Eq, Structural)]
pub enum RecordKind {
    /// `HEADER`: sets the date that later time-of-day tokens are read against.
    Header,
    /// `MD001`: the trade summary.
    Md001,
    /// `MD002`: the trade summary and a five-level ladder.
    Md002,
    /// `MD003`: laid out as `MD002`.
    Md003,
    /// `MD004`: the `MD002` fields and two fund reference values.
    Md004,
}

impl RecordKind {
    /// How many numeric tokens a record of this kind lists.
    pub open spec fn field_count_spec(self) -> nat {
        match self {
            RecordKind::Header => 0,
            RecordKind::Md001 => 8,
            RecordKind::Md002 => 28,
            RecordKind::Md003 => 28,
            RecordKind::Md004 => 30,
        }
    }

    /// How many numeric tokens a record of this kind lists.
    pub fn field_count(self) -> (n: usize)
        ensures
            n == self.field_count_spec(),
            n <= FIELD_SLOTS,
    {
        match self {
            RecordKind::Header => 0,
            RecordKind::Md001 => 8,
            RecordKind::Md002 => 28,
            RecordKind::Md003 => 28,
            RecordKind::Md004 => 30,
        }
    }
}

/// The bytes of `HEADER`.
pub open spec fn header_id() -> Seq<u8> {
    seq![72u8, 69u8, 65u8, 68u8, 69u8, 82u8]
}

/// The bytes of `MD00` followed by the digit `last`.
pub open spec fn market_data_id(last: u8) -> Seq<u8> {
    seq![77u8, 68u8, 48u8, 48u8, last]
}

/// The kind that the identifier `id` names, if it names one.
pub open spec fn kind_of(id: Seq<u8>) -> Option<RecordKind> {
    if id == header_id() {
        Some(RecordKind::Header)
    } else if id == market_data_id(49) {
        Some(RecordKind::Md001)
    } else if id == market_data_id(50) {
        Some(RecordKind::Md002)
    } else if id == market_data_id(51) {
        Some(RecordKind::Md003)
    } else if id == market_data_id(52) {
        Some(RecordKind::Md004)
    } else {
        None
    }
}

/// Matches the first token of a line against the known identifiers.
pub fn classify(id: &[u8]) -> (kind: Option<RecordKind>)
    ensures
        kind == kind_of(id@),
{
    if id.len() == 6 {
        if id[0] == 72 && id[1] == 69 && id[2] == 65 && id[3] == 68 && id[4] == 69 && id[5] == 82 {
            assert(id@ =~= header_id());
            Some(RecordKind::Header)
        } else {
            None
        }
    } else if id.len() == 5 {
        if id[0] == 77 && id[1] == 68 && id[2] == 48 && id[3] == 48 {
            let last = id[4];
            assert(id@ =~= market_data_id(last));
            if last == 49 {
                Some(RecordKind::Md001)
            } else if last == 50 {
                Some(RecordKind::Md002)
            } else if last == 51 {
                Some(RecordKind::Md003)
            } else if last == 52 {
                Some(RecordKind::Md004)
            } else {
                assert(market_data_id(last)[4] == last);
                None
            }
        } else {
            None
        }
    } else {
        None
    }
}

} // verus!
