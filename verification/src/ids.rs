//! Identifiers for the fixed 8×8 grid and for recorded clips.
use vstd::prelude::*;
use vstd::slice::slice_subrange;

verus! {

/// Number of tracks. Columns on the Launchpad grid.
pub const TRACK_COUNT: usize = 8;

/// Number of slots per track. Rows on the Launchpad grid.
pub const SLOT_COUNT: usize = 8;

/// Number of pads on the whole grid.
pub const PAD_COUNT: usize = 64;

/// [`TRACK_COUNT`] as the index type, so range checks need no cast.
const TRACK_LIMIT: u8 = 8;

/// [`SLOT_COUNT`] as the index type, so range checks need no cast.
const SLOT_LIMIT: u8 = 8;

/// Input channels an input row can address, one pad each.
pub const INPUT_CHANNELS: usize = 8;

/// An out-of-range track or slot index.
#[derive(Debug, Clone, Copy, PartialEq, Eq, Structural)]
pub struct IndexOutOfRange {
    /// The offending index.
    pub index: u8,
    /// The exclusive upper bound.
    pub limit: u8,
}

/// A track index in `0..TRACK_COUNT`.
#[derive(Debug, Clone, Copy, PartialEq, Eq, PartialOrd, Ord, Hash, Structural)]
pub struct TrackId(pub(crate) u8);

impl TrackId {
    /// Whether the index names a track.
    #[verifier::type_invariant]
    pub open(crate) spec fn wf(self) -> bool {
        self.0 < 8
    }

    /// The index as a number.
    pub open(crate) spec fn num(self) -> int {
        self.0 as int
    }

    /// The track at a given index.
    pub open(crate) spec fn at(index: int) -> Self {
        TrackId(index as u8)
    }

    /// # Errors
    ///
    /// [`IndexOutOfRange`] if `index` is not below [`TRACK_COUNT`].
    pub fn new(index: u8) -> (r: Result<Self, IndexOutOfRange>)
        ensures
            r == (if index < TRACK_COUNT {
                Ok::<TrackId, IndexOutOfRange>(TrackId::at(index as int))
            } else {
                Err(IndexOutOfRange { index, limit: 8 })
            }),
            r is Ok ==> r->Ok_0.num() == index && r->Ok_0.wf(),
    {
        if index >= TRACK_LIMIT {
            return Err(IndexOutOfRange { index, limit: TRACK_LIMIT });
        }
        Ok(Self(index))
    }

    /// The raw index.
    pub fn index(self) -> (r: usize)
        ensures
            r == self.num(),
            r < TRACK_COUNT,
            self.wf(),
    {
        proof {
            use_type_invariant(&self);
        }
        self.0 as usize
    }

    /// Every track, in order.
    pub fn all() -> (r: Vec<Self>)
        ensures
            r@ == Seq::new(8, |i: int| TrackId::at(i)),
    {
        let mut out: Vec<Self> = Vec::new();
        let mut index: u8 = 0;
        while index < TRACK_LIMIT
            invariant
                index <= 8,
                out@ == Seq::new(index as nat, |i: int| TrackId::at(i)),
            decreases 8 - index,
        {
            out.push(TrackId(index));
            index += 1;
            assert(out@ =~= Seq::new(index as nat, |i: int| TrackId::at(i)));
        }
        out
    }
}

/// A slot index in `0..SLOT_COUNT`.
#[derive(Debug, Clone, Copy, PartialEq, Eq, PartialOrd, Ord, Hash, Structural)]
pub struct SlotId(pub(crate) u8);

impl SlotId {
    /// Whether the index names a slot.
    #[verifier::type_invariant]
    pub open(crate) spec fn wf(self) -> bool {
        self.0 < 8
    }

    /// The index as a number.
    pub open(crate) spec fn num(self) -> int {
        self.0 as int
    }

    /// The slot at a given index.
    pub open(crate) spec fn at(index: int) -> Self {
        SlotId(index as u8)
    }

    /// # Errors
    ///
    /// [`IndexOutOfRange`] if `index` is not below [`SLOT_COUNT`].
    pub fn new(index: u8) -> (r: Result<Self, IndexOutOfRange>)
        ensures
            r == (if index < SLOT_COUNT {
                Ok::<SlotId, IndexOutOfRange>(SlotId::at(index as int))
            } else {
                Err(IndexOutOfRange { index, limit: 8 })
            }),
            r is Ok ==> r->Ok_0.num() == index && r->Ok_0.wf(),
    {
        if index >= SLOT_LIMIT {
            return Err(IndexOutOfRange { index, limit: SLOT_LIMIT });
        }
        Ok(Self(index))
    }

    /// The raw index.
    pub fn index(self) -> (r: usize)
        ensures
            r == self.num(),
            r < SLOT_COUNT,
            self.wf(),
    {
        proof {
            use_type_invariant(&self);
        }
        self.0 as usize
    }

    /// Every slot, in order.
    pub fn all() -> (r: Vec<Self>)
        ensures
            r@ == Seq::new(8, |i: int| SlotId::at(i)),
    {
        let mut out: Vec<Self> = Vec::new();
        let mut index: u8 = 0;
        while index < SLOT_LIMIT
            invariant
                index <= 8,
                out@ == Seq::new(index as nat, |i: int| SlotId::at(i)),
            decreases 8 - index,
        {
            out.push(SlotId(index));
            index += 1;
            assert(out@ =~= Seq::new(index as nat, |i: int| SlotId::at(i)));
        }
        out
    }
}

/// A cell on the grid.
#[derive(Debug, Clone, Copy, PartialEq, Eq, PartialOrd, Ord, Hash, Structural)]
pub struct SlotAddr {
    /// Which track. The grid row.
    pub track: TrackId,
    /// Which slot on that track. The grid column.
    pub slot: SlotId,
}

impl SlotAddr {
    /// Whether the address is on the grid. Holds of every address a program can hold.
    pub open spec fn wf(self) -> bool {
        self.track.wf() && self.slot.wf()
    }

    /// The pad's place counting track by track.
    pub open spec fn place(self) -> int {
        self.track.num() * 8 + self.slot.num()
    }

    /// The pad at a given place.
    pub open spec fn at(place: int) -> Self {
        SlotAddr { track: TrackId::at(place / 8), slot: SlotId::at(place % 8) }
    }

    pub fn new(track: TrackId, slot: SlotId) -> (r: Self)
        ensures
            r == (SlotAddr { track, slot }),
            r.wf(),
    {
        proof {
            use_type_invariant(&track);
            use_type_invariant(&slot);
        }
        Self { track, slot }
    }

    /// The pad's place in a table of all pads, track-major.
    pub fn index(self) -> (r: usize)
        ensures
            r == self.place(),
            r < PAD_COUNT,
            self.wf(),
    {
        self.track.index() * SLOT_COUNT + self.slot.index()
    }

    /// The pad at a place in a table of all pads.
    pub(crate) fn of_index(index: usize) -> (r: Self)
        requires
            index < PAD_COUNT,
        ensures
            r == SlotAddr::at(index as int),
            r.wf(),
            r.place() == index,
    {
        Self { track: TrackId((index / 8) as u8), slot: SlotId((index % 8) as u8) }
    }

    /// Every cell, track-major.
    pub fn all() -> (r: Vec<Self>)
        ensures
            r@ == Seq::new(64, |i: int| SlotAddr::at(i)),
    {
        let mut out: Vec<Self> = Vec::new();
        let mut index: usize = 0;
        while index < PAD_COUNT
            invariant
                index <= 64,
                out@ == Seq::new(index as nat, |i: int| SlotAddr::at(i)),
            decreases 64 - index,
        {
            out.push(SlotAddr::of_index(index));
            index += 1;
            assert(out@ =~= Seq::new(index as nat, |i: int| SlotAddr::at(i)));
        }
        out
    }
}

/// Addresses and places name the same pads: each undoes the other, so no two pads share a
/// place and every place holds one pad.
pub proof fn places_are_addresses(addr: SlotAddr, place: int)
    requires
        addr.wf(),
        0 <= place < 64,
    ensures
        0 <= addr.place() < 64,
        SlotAddr::at(addr.place()) == addr,
        SlotAddr::at(place).place() == place,
        SlotAddr::at(place).wf(),
{
}

/// A set of pads, one bit each, track-major.
///
/// Kept to one word so it can cross the realtime boundary in a command.
pub type PadMask = u64;

/// Whether a set of pads holds the pad at a place.
pub open spec fn holds_place(mask: PadMask, place: int) -> bool {
    mask & (1u64 << (place as u64)) != 0
}

/// Whether a set of pads holds a pad.
pub open spec fn holds(mask: PadMask, addr: SlotAddr) -> bool {
    holds_place(mask, addr.place())
}

/// The bit for a pad in a [`PadMask`].
pub fn pad_bit(addr: SlotAddr) -> (r: PadMask)
    ensures
        r == 1u64 << (addr.place() as u64),
        forall|other: SlotAddr| other.wf() ==> (#[trigger] holds(r, other) <==> other == addr),
{
    let place: usize = addr.index();
    let bit: u64 = 1u64 << (place as u64);
    proof {
        bit_is_single(place as u64);
        assert forall|other: SlotAddr| other.wf() implies (#[trigger] holds(bit, other) <==> other
            == addr) by {
            places_are_addresses(other, 0);
            places_are_addresses(addr, 0);
            assert(holds(bit, other) == holds_place(1u64 << (place as u64), other.place()));
        }
    }
    bit
}

/// A single bit is set at its own place alone.
proof fn bit_is_single(at: u64)
    requires
        at < 64,
    ensures
        forall|place: int|
            0 <= place < 64 ==> (#[trigger] holds_place(1u64 << at, place) <==> place == at),
{
    assert forall|place: int| 0 <= place < 64 implies (#[trigger] holds_place(1u64 << at, place)
        <==> place == at) by {
        let p = place as u64;
        assert(((1u64 << at) & (1u64 << p) != 0) <==> p == at) by (bit_vector)
            requires
                at < 64,
                p < 64,
        ;
    }
}

/// A set with one more bit set holds what it held and the pad at that bit.
pub(crate) proof fn or_bit(mask: PadMask, at: u64)
    requires
        at < 64,
    ensures
        forall|place: int|
            0 <= place < 64 ==> (#[trigger] holds_place(mask | (1u64 << at), place) <==> (
            holds_place(mask, place) || place == at)),
{
    assert forall|place: int| 0 <= place < 64 implies (#[trigger] holds_place(
        mask | (1u64 << at),
        place,
    ) <==> (holds_place(mask, place) || place == at)) by {
        let p = place as u64;
        assert((mask | (1u64 << at)) & (1u64 << p) != 0 <==> (mask & (1u64 << p) != 0 || p == at))
            by (bit_vector)
            requires
                at < 64,
                p < 64,
        ;
    }
}

/// The empty set holds no pad.
pub proof fn none_held(place: int)
    ensures
        !holds_place(0, place),
{
    let p = place as u64;
    assert(0u64 & (1u64 << p) == 0) by (bit_vector);
}

/// Every pad in a track's row.
pub open spec fn row_set(track: TrackId) -> PadMask {
    0xffu64 << ((track.num() * 8) as u64)
}

/// Every pad in a slot's column.
pub open spec fn column_set(slot: SlotId) -> PadMask {
    0x0101_0101_0101_0101u64 << (slot.num() as u64)
}

/// A row holds the eight places of its track, and a column every eighth place.
pub(crate) proof fn sets_hold(track: TrackId, slot: SlotId, place: int)
    requires
        track.wf(),
        slot.wf(),
        0 <= place < 64,
    ensures
        holds_place(row_set(track), place) <==> place / 8 == track.num(),
        holds_place(column_set(slot), place) <==> place % 8 == slot.num(),
{
    let from = (track.num() * 8) as u64;
    let column = slot.num() as u64;
    let p = place as u64;
    assert(((0xffu64 << from) & (1u64 << p) != 0) <==> (from <= p && p < from + 8)) by (bit_vector)
        requires
            from <= 56,
            p < 64,
    ;
    assert(((0x0101_0101_0101_0101u64 << column) & (1u64 << p) != 0) <==> p % 8 == column)
        by (bit_vector)
        requires
            column < 8,
            p < 64,
    ;
}

/// Every pad in a track's row.
pub fn row_mask(track: TrackId) -> (r: PadMask)
    ensures
        r == row_set(track),
        forall|addr: SlotAddr| addr.wf() ==> (#[trigger] holds(r, addr) <==> addr.track == track),
{
    let mut mask: u64 = 0;
    let mut slot: u8 = 0;
    let first: usize = track.index() * SLOT_COUNT;
    proof {
        assert forall|place: int| 0 <= place < 64 implies !holds_place(0, place) by {
            none_held(place);
        }
    }
    while slot < SLOT_LIMIT
        invariant
            slot <= 8,
            track.wf(),
            first == track.num() * 8,
            forall|place: int|
                0 <= place < 64 ==> (#[trigger] holds_place(mask, place) <==> first <= place < first
                    + slot),
        decreases 8 - slot,
    {
        let place: usize = first + slot as usize;
        proof {
            or_bit(mask, place as u64);
        }
        mask = mask | (1u64 << (place as u64));
        slot += 1;
    }
    proof {
        assert forall|addr: SlotAddr| addr.wf() implies (#[trigger] holds(mask, addr) <==> addr.track
            == track) by {
            assert(holds(mask, addr) == holds_place(mask, addr.place()));
        }
        assert forall|place: int| 0 <= place < 64 implies (#[trigger] holds_place(mask, place)
            <==> holds_place(row_set(track), place)) by {
            sets_hold(track, SlotId::at(0), place);
        }
        same_pads_same_mask(mask, row_set(track));
    }
    mask
}

/// Every pad in a slot's column.
pub fn column_mask(slot: SlotId) -> (r: PadMask)
    ensures
        r == column_set(slot),
        forall|addr: SlotAddr| addr.wf() ==> (#[trigger] holds(r, addr) <==> addr.slot == slot),
{
    let mut mask: u64 = 0;
    let mut track: u8 = 0;
    let column: usize = slot.index();
    proof {
        assert forall|place: int| 0 <= place < 64 implies !holds_place(0, place) by {
            none_held(place);
        }
    }
    while track < TRACK_LIMIT
        invariant
            track <= 8,
            slot.wf(),
            column == slot.num(),
            forall|place: int|
                0 <= place < 64 ==> (#[trigger] holds_place(mask, place) <==> place % 8 == column
                    && place < track * 8),
        decreases 8 - track,
    {
        let place: usize = track as usize * SLOT_COUNT + column;
        proof {
            or_bit(mask, place as u64);
        }
        mask = mask | (1u64 << (place as u64));
        track += 1;
    }
    proof {
        assert forall|addr: SlotAddr| addr.wf() implies (#[trigger] holds(mask, addr) <==> addr.slot
            == slot) by {
            assert(holds(mask, addr) == holds_place(mask, addr.place()));
        }
        assert forall|place: int| 0 <= place < 64 implies (#[trigger] holds_place(mask, place)
            <==> holds_place(column_set(slot), place)) by {
            sets_hold(TrackId::at(0), slot, place);
        }
        same_pads_same_mask(mask, column_set(slot));
    }
    mask
}

/// Two sets that hold the same pads are the same set.
pub proof fn same_pads_same_mask(a: PadMask, b: PadMask)
    requires
        forall|place: int| 0 <= place < 64 ==> (#[trigger] holds_place(a, place) <==> holds_place(
            b,
            place,
        )),
    ensures
        a == b,
{
    same_low_bits(a, b, 63);
    assert(holds_place(a, 63) <==> holds_place(b, 63));
    assert(a == b) by (bit_vector)
        requires
            a & !(0xffff_ffff_ffff_ffffu64 << 63u64) == b & !(0xffff_ffff_ffff_ffffu64 << 63u64),
            a & (1u64 << 63u64) != 0 <==> b & (1u64 << 63u64) != 0,
    ;
}

proof fn same_low_bits(a: PadMask, b: PadMask, count: u64)
    requires
        count < 64,
        forall|place: int| 0 <= place < 64 ==> (#[trigger] holds_place(a, place) <==> holds_place(
            b,
            place,
        )),
    ensures
        a & !(0xffff_ffff_ffff_ffffu64 << count) == b & !(0xffff_ffff_ffff_ffffu64 << count),
    decreases count,
{
    if count == 0 {
        assert(a & !(0xffff_ffff_ffff_ffffu64 << 0u64) == b & !(0xffff_ffff_ffff_ffffu64 << 0u64))
            by (bit_vector);
    } else {
        let last = (count - 1) as u64;
        same_low_bits(a, b, last);
        assert(holds_place(a, last as int) <==> holds_place(b, last as int));
        assert(a & !(0xffff_ffff_ffff_ffffu64 << count) == b & !(0xffff_ffff_ffff_ffffu64 << count))
            by (bit_vector)
            requires
                count < 64,
                0 < count,
                last == count - 1,
                a & !(0xffff_ffff_ffff_ffffu64 << last) == b & !(0xffff_ffff_ffff_ffffu64 << last),
                a & (1u64 << last) != 0 <==> b & (1u64 << last) != 0,
        ;
    }
}

/// A row and a column meet at exactly one pad.
pub proof fn row_and_column_meet(track: TrackId, slot: SlotId)
    requires
        track.wf(),
        slot.wf(),
    ensures
        row_set(track) & column_set(slot) == 1u64 << ((SlotAddr { track, slot }).place() as u64),
{
    let row = row_set(track);
    let column = column_set(slot);
    let at = (SlotAddr { track, slot }).place();
    let bit = 1u64 << (at as u64);
    bit_is_single(at as u64);
    assert forall|place: int| 0 <= place < 64 implies (#[trigger] holds_place(row & column, place)
        <==> holds_place(bit, place)) by {
        sets_hold(track, slot, place);
        let p = place as u64;
        assert((row & column) & (1u64 << p) != 0 <==> (row & (1u64 << p) != 0 && column & (1u64
            << p) != 0)) by (bit_vector);
    }
    same_pads_same_mask(row & column, bit);
}

/// The rows of two different tracks share no pad, and every pad is in the row of its track.
pub proof fn rows_cover_the_grid(a: TrackId, b: TrackId, addr: SlotAddr)
    requires
        a.wf(),
        b.wf(),
        a != b,
        addr.wf(),
    ensures
        row_set(a) & row_set(b) == 0,
        holds(row_set(addr.track), addr),
{
    let first = row_set(a);
    let second = row_set(b);
    assert forall|place: int| 0 <= place < 64 implies (#[trigger] holds_place(first & second, place)
        <==> holds_place(0, place)) by {
        none_held(place);
        sets_hold(a, SlotId::at(0), place);
        sets_hold(b, SlotId::at(0), place);
        let p = place as u64;
        assert((first & second) & (1u64 << p) != 0 <==> (first & (1u64 << p) != 0 && second & (1u64
            << p) != 0)) by (bit_vector);
    }
    same_pads_same_mask(first & second, 0);
    sets_hold(addr.track, addr.slot, addr.place());
}

/// Identifies a recorded clip. Supplied via [`crate::slot::Ctx`], which keeps
/// [`crate::slot::step`] pure.
#[derive(Debug, Clone, Copy, PartialEq, Eq, PartialOrd, Ord, Hash, Default, Structural)]
pub struct ClipId(pub u32);

impl ClipId {
    /// The id that follows this one.
    #[must_use]
    pub fn next(self) -> (r: Self)
        ensures
            r.0 == (self.0 + 1) % 0x1_0000_0000,
    {
        Self(self.0.wrapping_add(1))
    }
}

/// Where a track's clips are anchored when launched.
#[derive(Debug, Clone, Copy, PartialEq, Eq, Structural)]
pub enum LaunchMode {
    /// In phase with the bar grid, wherever the launch falls.
    Follow,
    /// From the top, at the launch.
    Restart,
}

impl Default for LaunchMode {
    fn default() -> (r: Self)
        ensures
            r == LaunchMode::Follow,
    {
        LaunchMode::Follow
    }
}

impl LaunchMode {
    /// Whether a launch starts the clip from its first frame.
    pub fn restarts(self) -> (r: bool)
        ensures
            r == (self is Restart),
    {
        match self {
            LaunchMode::Follow => false,
            LaunchMode::Restart => true,
        }
    }

    /// The other mode.
    pub fn toggled(self) -> (r: Self)
        ensures
            r == (if self is Follow {
                LaunchMode::Restart
            } else {
                LaunchMode::Follow
            }),
    {
        match self {
            LaunchMode::Follow => LaunchMode::Restart,
            LaunchMode::Restart => LaunchMode::Follow,
        }
    }
}

/// How many of a track's loops may sound at once.
#[derive(Debug, Clone, Copy, PartialEq, Eq, Structural)]
pub enum Polyphony {
    /// Launching one loop hands over from the other.
    Single,
    /// Every loop on the track may sound together.
    Multiple,
}

impl Default for Polyphony {
    fn default() -> (r: Self)
        ensures
            r == Polyphony::Single,
    {
        Polyphony::Single
    }
}

impl Polyphony {
    /// Whether launching a loop silences the rest of the track.
    pub fn is_exclusive(self) -> (r: bool)
        ensures
            r == (self is Single),
    {
        match self {
            Polyphony::Single => true,
            Polyphony::Multiple => false,
        }
    }

    /// The other one.
    pub fn toggled(self) -> (r: Self)
        ensures
            r == (if self is Single {
                Polyphony::Multiple
            } else {
                Polyphony::Single
            }),
    {
        match self {
            Polyphony::Single => Polyphony::Multiple,
            Polyphony::Multiple => Polyphony::Single,
        }
    }
}

/// Which input a track records.
#[derive(Debug, Clone, Copy, PartialEq, Eq, Structural)]
pub enum TrackInput {
    /// Input channels in order, so a stereo source stays stereo.
    Stereo,
    /// One input channel on every channel of the clip.
    Mono(u8),
    /// Two input channels, the first on the left and the second on the right.
    Pair(u8, u8),
}

impl Default for TrackInput {
    fn default() -> (r: Self)
        ensures
            r == TrackInput::Stereo,
    {
        TrackInput::Stereo
    }
}

impl TrackInput {
    /// Two channels as a pair, the lower one on the left.
    pub fn pair(a: u8, b: u8) -> (r: Self)
        ensures
            r == (if a <= b {
                TrackInput::Pair(a, b)
            } else {
                TrackInput::Pair(b, a)
            }),
    {
        if a <= b {
            TrackInput::Pair(a, b)
        } else {
            TrackInput::Pair(b, a)
        }
    }

    /// The column that stands for this input on a row of pads.
    ///
    /// Column zero is the stereo pair; the rest are one input each. A chosen pair is found at
    /// its left channel.
    pub fn column(self) -> (r: usize)
        ensures
            r == (match self {
                TrackInput::Stereo => 0,
                TrackInput::Mono(channel) => channel + 1,
                TrackInput::Pair(left, _) => left + 1,
            }),
    {
        match self {
            TrackInput::Stereo => 0,
            TrackInput::Mono(channel) => channel as usize + 1,
            TrackInput::Pair(left, _) => left as usize + 1,
        }
    }

    /// The input a column stands for.
    pub fn from_column(column: usize) -> (r: Self)
        ensures
            r == (if column == 0 {
                TrackInput::Stereo
            } else if column - 1 <= u8::MAX {
                TrackInput::Mono((column - 1) as u8)
            } else {
                TrackInput::Mono(u8::MAX)
            }),
    {
        if column == 0 {
            TrackInput::Stereo
        } else if column - 1 <= u8::MAX as usize {
            TrackInput::Mono((column - 1) as u8)
        } else {
            TrackInput::Mono(u8::MAX)
        }
    }

    /// The source channels this input picks, in the order a clip's channels take them.
    pub open spec fn picked(self) -> Seq<u8> {
        match self {
            TrackInput::Stereo => seq![0u8, 1u8],
            TrackInput::Mono(channel) => seq![channel],
            TrackInput::Pair(left, right) => seq![left, right],
        }
    }

    /// The source channels this input picks.
    pub fn channels(self) -> (r: Picks)
        ensures
            r@ == self.picked(),
    {
        match self {
            TrackInput::Stereo => Picks::two(0, 1),
            TrackInput::Mono(channel) => Picks::one(channel),
            TrackInput::Pair(left, right) => Picks::two(left, right),
        }
    }

    /// This input held to what a device with so many channels delivers. One channel past the
    /// last falls back to the first, and a pair that reaches past it to the channels in order.
    pub fn within(self, channels: usize) -> (r: Self)
        ensures
            r == (match self {
                TrackInput::Stereo => TrackInput::Stereo,
                TrackInput::Mono(channel) => if channel < channels {
                    self
                } else {
                    TrackInput::Mono(0)
                },
                TrackInput::Pair(left, right) => if left < channels && right < channels {
                    self
                } else {
                    TrackInput::Stereo
                },
            }),
    {
        match self {
            TrackInput::Stereo => self,
            TrackInput::Mono(channel) => if (channel as usize) < channels {
                self
            } else {
                TrackInput::Mono(0)
            },
            TrackInput::Pair(left, right) => if (left as usize) < channels && (right as usize)
                < channels {
                self
            } else {
                TrackInput::Stereo
            },
        }
    }
}

/// The column of an input leads back to it, for the inputs a column can stand for.
pub proof fn columns_round_trip(column: usize, input: TrackInput)
    requires
        input == (if column == 0 {
            TrackInput::Stereo
        } else {
            TrackInput::Mono((column - 1) as u8)
        }),
        column <= 256,
    ensures
        column == (match input {
            TrackInput::Stereo => 0,
            TrackInput::Mono(channel) => channel + 1,
            TrackInput::Pair(left, _) => left + 1,
        }),
{
}

/// The one or two source channels an input picks.
#[derive(Debug, Clone, Copy)]
pub struct Picks {
    channels: [u8; 2],
    count: usize,
}

impl Picks {
    #[verifier::type_invariant]
    spec fn wf(&self) -> bool {
        1 <= self.count <= 2
    }

    /// The channels, in the order a clip's channels take them.
    pub closed spec fn view(&self) -> Seq<u8> {
        self.channels@.take(self.count as int)
    }

    fn one(channel: u8) -> (r: Self)
        ensures
            r@ == seq![channel],
    {
        let r = Picks { channels: [channel, channel], count: 1 };
        assert(r@ =~= seq![channel]);
        r
    }

    fn two(first: u8, second: u8) -> (r: Self)
        ensures
            r@ == seq![first, second],
    {
        let r = Picks { channels: [first, second], count: 2 };
        assert(r@ =~= seq![first, second]);
        r
    }

    /// The channels, in the order a clip's channels take them.
    pub fn as_slice(&self) -> (r: &[u8])
        ensures
            r@ == self@,
    {
        proof {
            use_type_invariant(self);
        }
        let all: &[u8] = &self.channels;
        let r: &[u8] = slice_subrange(all, 0, self.count);
        assert(r@ =~= self@);
        r
    }
}

/// A setting with two values comes back when it is turned over twice, and never stays the same.
pub proof fn turning_over_twice_changes_nothing(
    mode: LaunchMode,
    modes: (LaunchMode, LaunchMode),
    polyphony: Polyphony,
    polyphonies: (Polyphony, Polyphony),
)
    requires
        call_ensures(LaunchMode::toggled, (mode,), modes.0),
        call_ensures(LaunchMode::toggled, (modes.0,), modes.1),
        call_ensures(Polyphony::toggled, (polyphony,), polyphonies.0),
        call_ensures(Polyphony::toggled, (polyphonies.0,), polyphonies.1),
    ensures
        modes.0 != mode,
        modes.1 == mode,
        polyphonies.0 != polyphony,
        polyphonies.1 == polyphony,
{
}

/// Two channels make the same pair whichever is named first, the lower one on the left.
pub proof fn pairs_are_in_order(a: u8, b: u8, one: TrackInput, other: TrackInput)
    requires
        call_ensures(TrackInput::pair, (a, b), one),
        call_ensures(TrackInput::pair, (b, a), other),
    ensures
        one == other,
        one matches TrackInput::Pair(left, right) && left <= right,
        one.picked().contains(a) && one.picked().contains(b),
{
    assert(one.picked()[0] == if a <= b {
        a
    } else {
        b
    });
    assert(one.picked()[1] == if a <= b {
        b
    } else {
        a
    });
}

/// The input of a column is found at that column again.
pub proof fn columns_lead_back(column: usize, input: TrackInput, back: usize)
    requires
        column <= 256,
        call_ensures(TrackInput::from_column, (column,), input),
        call_ensures(TrackInput::column, (input,), back),
    ensures
        back == column,
{
}

/// An input held to a device stays as it is where the device delivers it, and asks for nothing the
/// device does not have.
pub proof fn inputs_stay_within_the_device(input: TrackInput, channels: usize, held: TrackInput)
    requires
        call_ensures(TrackInput::within, (input, channels), held),
        0 < channels,
    ensures
        held matches TrackInput::Mono(channel) ==> channel < channels,
        held matches TrackInput::Pair(left, right) ==> left < channels && right < channels,
        input matches TrackInput::Mono(channel) ==> (channel < channels ==> held == input),
        input matches TrackInput::Pair(left, right) ==> (left < channels && right < channels
            ==> held == input),
        input is Stereo ==> held is Stereo,
{
}

} // verus!
