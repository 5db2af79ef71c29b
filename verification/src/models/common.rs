//! Common value types of the routing model: locations, time, saturating
//! arithmetic on them, and vehicle loads.

use vstd::prelude::*;

verus! {

/// An index of a place in the routing matrix.
pub type Location = usize;

/// A point in time, in whole seconds since the epoch.
pub type Timestamp = i64;

/// A span of time, in whole seconds.
pub type Duration = i64;

/// A travelled distance, in whole distance units.
pub type Distance = i64;

/// An amount of cost, in whole cost units.
pub type Cost = i64;

/// The value `v` brought into the range of `i64`.
pub open spec fn clamp_i64(v: int) -> int {
    if v < i64::MIN as int {
        i64::MIN as int
    } else if v > i64::MAX as int {
        i64::MAX as int
    } else {
        v
    }
}

/// The value `v` brought into the range of `i32`.
pub open spec fn clamp_i32(v: int) -> int {
    if v < i32::MIN as int {
        i32::MIN as int
    } else if v > i32::MAX as int {
        i32::MAX as int
    } else {
        v
    }
}

/// Sum of two quantities, saturating at the bounds of `i64`.
pub fn plus(a: i64, b: i64) -> (r: i64)
    ensures
        r == clamp_i64(a + b),
{
    let wide: i128 = a as i128 + b as i128;
    if wide < i64::MIN as i128 {
        i64::MIN
    } else if wide > i64::MAX as i128 {
        i64::MAX
    } else {
        wide as i64
    }
}

/// Difference of two quantities, saturating at the bounds of `i64`.
pub fn minus(a: i64, b: i64) -> (r: i64)
    ensures
        r == clamp_i64(a - b),
{
    let wide: i128 = a as i128 - b as i128;
    if wide < i64::MIN as i128 {
        i64::MIN
    } else if wide > i64::MAX as i128 {
        i64::MAX
    } else {
        wide as i64
    }
}

/// Product of two quantities, saturating at the bounds of `i64`.
pub fn times(a: i64, b: i64) -> (r: i64)
    ensures
        r == clamp_i64(a * b),
{
    assert(-0x8000_0000_0000_0000 * 0x8000_0000_0000_0000 <= a * b <= 0x8000_0000_0000_0000
        * 0x8000_0000_0000_0000) by (nonlinear_arith)
        requires
            -0x8000_0000_0000_0000 <= a < 0x8000_0000_0000_0000,
            -0x8000_0000_0000_0000 <= b < 0x8000_0000_0000_0000,
    ;
    let wide: i128 = a as i128 * b as i128;
    if wide < i64::MIN as i128 {
        i64::MIN
    } else if wide > i64::MAX as i128 {
        i64::MAX
    } else {
        wide as i64
    }
}

/// A place on the map, in whole units of latitude and longitude.
#[derive(Clone, Copy, Debug, PartialEq, Eq)]
pub struct GeoLocation {
    /// Latitude.
    pub lat: i64,
    /// Longitude.
    pub lng: i64,
}

/// A time interval in which an activity may start.
#[derive(Clone, Copy, Debug, PartialEq, Eq)]
pub struct TimeWindow {
    /// Earliest start.
    pub start: Timestamp,
    /// Latest start.
    pub end: Timestamp,
}

/// The later of two points in time.
pub open spec fn later(a: Timestamp, b: Timestamp) -> Timestamp {
    if a >= b {
        a
    } else {
        b
    }
}

/// The earlier of two points in time.
pub open spec fn earlier(a: Timestamp, b: Timestamp) -> Timestamp {
    if a <= b {
        a
    } else {
        b
    }
}

impl TimeWindow {
    /// Whether the two windows share a point in time.
    pub open spec fn spec_intersects(&self, other: &TimeWindow) -> bool {
        self.start <= other.end && other.start <= self.end
    }

    /// What the two windows share, if they share anything.
    pub open spec fn spec_overlapping(&self, other: &TimeWindow) -> Option<TimeWindow> {
        if self.spec_intersects(other) {
            Some(
                TimeWindow {
                    start: later(self.start, other.start),
                    end: earlier(self.end, other.end),
                },
            )
        } else {
            None
        }
    }

    /// The length of the window.
    pub open spec fn spec_duration(&self) -> int {
        clamp_i64(self.end - self.start)
    }

    /// A window from `start` to `end`.
    pub fn new(start: Timestamp, end: Timestamp) -> (r: Self)
        ensures
            r == (TimeWindow { start, end }),
    {
        TimeWindow { start, end }
    }

    /// Tells whether the two windows share a point in time.
    pub fn intersects(&self, other: &TimeWindow) -> (r: bool)
        ensures
            r == self.spec_intersects(other),
    {
        self.start <= other.end && other.start <= self.end
    }

    /// Returns what the two windows share, if they share anything.
    pub fn overlapping(&self, other: &TimeWindow) -> (r: Option<TimeWindow>)
        ensures
            r == self.spec_overlapping(other),
    {
        if self.intersects(other) {
            let start = if self.start >= other.start {
                self.start
            } else {
                other.start
            };
            let end = if self.end <= other.end {
                self.end
            } else {
                other.end
            };
            Some(TimeWindow { start, end })
        } else {
            None
        }
    }

    /// Returns the length of the window.
    pub fn duration(&self) -> (r: Duration)
        ensures
            r == self.spec_duration(),
    {
        minus(self.end, self.start)
    }
}

/// A time interval relative to the start of a tour.
#[derive(Clone, Copy, Debug, PartialEq, Eq)]
pub struct TimeOffset {
    /// Offset of the earliest start.
    pub start: Duration,
    /// Offset of the latest start.
    pub end: Duration,
}

/// When a job may start: within a window, or within an offset from the start
/// of the tour.
#[derive(Clone, Copy, Debug, PartialEq, Eq)]
pub enum TimeSpan {
    /// A time window.
    Window(TimeWindow),
    /// A time offset.
    Offset(TimeOffset),
}

impl TimeSpan {
    /// The window of the span, none for an offset.
    pub open spec fn spec_as_time_window(&self) -> Option<TimeWindow> {
        match self {
            TimeSpan::Window(window) => Some(*window),
            TimeSpan::Offset(_) => None,
        }
    }

    /// Returns the window of the span, none for an offset.
    pub fn as_time_window(&self) -> (r: Option<TimeWindow>)
        ensures
            r == self.spec_as_time_window(),
    {
        match self {
            TimeSpan::Window(window) => Some(*window),
            TimeSpan::Offset(_) => None,
        }
    }
}

/// Arrival and departure time of an activity.
#[derive(Clone, Copy, Debug, PartialEq, Eq)]
pub struct Schedule {
    /// Arrival time.
    pub arrival: Timestamp,
    /// Departure time.
    pub departure: Timestamp,
}

/// A load with any number of dimensions. A missing dimension counts as zero.
#[derive(Clone, Debug, PartialEq, Eq)]
pub struct MultiDimLoad {
    /// The amount in each dimension.
    pub load: Vec<i32>,
}

/// Component `i` of a load, zero beyond its dimensions.
pub open spec fn load_at(load: Seq<i32>, i: int) -> int {
    if 0 <= i < load.len() {
        load[i] as int
    } else {
        0
    }
}

/// Componentwise saturating sum of two loads, as long as the longer of the two.
pub open spec fn load_sum(a: Seq<i32>, b: Seq<i32>) -> Seq<i32> {
    Seq::new(
        if a.len() >= b.len() { a.len() } else { b.len() },
        |i: int| clamp_i32(load_at(a, i) + load_at(b, i)) as i32,
    )
}

/// Componentwise saturating difference of two loads, as long as the longer of the two.
pub open spec fn load_difference(a: Seq<i32>, b: Seq<i32>) -> Seq<i32> {
    Seq::new(
        if a.len() >= b.len() { a.len() } else { b.len() },
        |i: int| clamp_i32(load_at(a, i) - load_at(b, i)) as i32,
    )
}

/// The load as it is reported: a single zero where it has no dimensions.
pub open spec fn load_report(a: Seq<i32>) -> Seq<i32> {
    if a.len() == 0 {
        seq![0i32]
    } else {
        a
    }
}

impl View for MultiDimLoad {
    type V = Seq<i32>;

    open spec fn view(&self) -> Seq<i32> {
        self.load@
    }
}

impl MultiDimLoad {
    /// A load with the given amounts.
    pub fn new(data: Vec<i32>) -> (r: Self)
        ensures
            r@ == data@,
    {
        MultiDimLoad { load: data }
    }

    /// The load without dimensions.
    pub fn empty() -> (r: Self)
        ensures
            r@ == Seq::<i32>::empty(),
    {
        MultiDimLoad { load: Vec::new() }
    }

    /// A load of `size` dimensions, all zero.
    pub fn zeros(size: usize) -> (r: Self)
        ensures
            r@ == Seq::new(size as nat, |i: int| 0i32),
    {
        let mut load: Vec<i32> = Vec::new();
        let mut i: usize = 0;
        while i < size
            invariant
                i <= size,
                load@ == Seq::new(i as nat, |k: int| 0i32),
            decreases size - i,
        {
            load.push(0);
            i = i + 1;
            assert(load@ =~= Seq::new(i as nat, |k: int| 0i32));
        }
        MultiDimLoad { load }
    }

    /// A copy of this load.
    pub fn copy(&self) -> (r: Self)
        ensures
            r@ == self@,
    {
        let mut load: Vec<i32> = Vec::new();
        let mut i: usize = 0;
        while i < self.load.len()
            invariant
                i <= self.load@.len(),
                load@ == self.load@.subrange(0, i as int),
            decreases self.load@.len() - i,
        {
            load.push(self.load[i]);
            i = i + 1;
            assert(load@ =~= self.load@.subrange(0, i as int));
        }
        assert(load@ =~= self.load@);
        MultiDimLoad { load }
    }

    fn component(&self, i: usize) -> (r: i32)
        ensures
            r == load_at(self@, i as int),
    {
        if i < self.load.len() {
            self.load[i]
        } else {
            0
        }
    }

    /// Componentwise saturating sum.
    pub fn plus(&self, other: &MultiDimLoad) -> (r: Self)
        ensures
            r@ == load_sum(self@, other@),
    {
        let size: usize = if self.load.len() >= other.load.len() {
            self.load.len()
        } else {
            other.load.len()
        };
        let mut load: Vec<i32> = Vec::new();
        let mut i: usize = 0;
        while i < size
            invariant
                i <= size,
                size == load_sum(self@, other@).len(),
                load@ == load_sum(self@, other@).subrange(0, i as int),
            decreases size - i,
        {
            let wide: i64 = self.component(i) as i64 + other.component(i) as i64;
            let value: i32 = if wide < i32::MIN as i64 {
                i32::MIN
            } else if wide > i32::MAX as i64 {
                i32::MAX
            } else {
                wide as i32
            };
            load.push(value);
            i = i + 1;
            assert(load@ =~= load_sum(self@, other@).subrange(0, i as int));
        }
        assert(load@ =~= load_sum(self@, other@));
        MultiDimLoad { load }
    }

    /// Componentwise saturating difference.
    pub fn minus(&self, other: &MultiDimLoad) -> (r: Self)
        ensures
            r@ == load_difference(self@, other@),
    {
        let size: usize = if self.load.len() >= other.load.len() {
            self.load.len()
        } else {
            other.load.len()
        };
        let mut load: Vec<i32> = Vec::new();
        let mut i: usize = 0;
        while i < size
            invariant
                i <= size,
                size == load_difference(self@, other@).len(),
                load@ == load_difference(self@, other@).subrange(0, i as int),
            decreases size - i,
        {
            let wide: i64 = self.component(i) as i64 - other.component(i) as i64;
            let value: i32 = if wide < i32::MIN as i64 {
                i32::MIN
            } else if wide > i32::MAX as i64 {
                i32::MAX
            } else {
                wide as i32
            };
            load.push(value);
            i = i + 1;
            assert(load@ =~= load_difference(self@, other@).subrange(0, i as int));
        }
        assert(load@ =~= load_difference(self@, other@));
        MultiDimLoad { load }
    }

    /// The amounts as they are reported: a single zero where the load has no
    /// dimensions.
    pub fn as_vec(&self) -> (r: Vec<i32>)
        ensures
            r@ == load_report(self@),
    {
        if self.load.len() == 0 {
            let mut out: Vec<i32> = Vec::new();
            out.push(0);
            assert(out@ =~= seq![0i32]);
            out
        } else {
            self.copy().load
        }
    }
}

/// A load of one dimension.
#[derive(Clone, Copy, Debug, PartialEq, Eq)]
pub struct SingleDimLoad {
    /// The amount.
    pub value: i32,
}

/// What a job takes from and brings to a vehicle: a static and a dynamic part
/// of each.
#[derive(Debug, PartialEq, Eq)]
pub struct Demand<T> {
    /// Static and dynamic pickup.
    pub pickup: (T, T),
    /// Static and dynamic delivery.
    pub delivery: (T, T),
}

} // verus!
