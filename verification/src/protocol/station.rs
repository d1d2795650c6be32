//! The simulated points of the collecting side and the units that report them.

use crate::config::{collect_views, CollectPointConfig, CollectPointView};
use crate::model::{
    rows, AddressingMode, CollectPointKind, ControlKind, PointRow, PointView, UploadKind,
};
use crate::number::{
    double_at_most, double_finite, state_sample, whole_real, whole_sample, Real, Sample,
    SampleView, WHOLE_LIMIT,
};
use crate::order::{lemma_sorting_views, order_of, sorted_by, stable_sort, Order};
use crate::protocol::asdu::current_cp56_time;
use crate::protocol::codec::element_size;
use crate::protocol::element::{
    Cp56Time2a, Diq, Dpi, Element, InformationObject, Qds, SeqQd, Siq, Spi, TypeId,
};
use crate::protocol::frame::{exchangeable, known_octets, SEQUENCE_MODULUS};
use crate::protocol::iec::{consecutive, elements_octets, iec_type_size, type_size};
use crate::protocol::message::{
    objects_valid, Asdu, AsduView, InformationObjects, ObjectsView, COT_SPONTANEOUS,
};
use crate::random::{random_i16, random_i32};
use crate::table::{rows_by_address, RowsByAddress};
use crate::text::{ascii_uppercase, cat, cat_number, decimal, raised, same_text, signed_decimal};
use vstd::prelude::*;

verus! {

/// The largest unit that a frame can carry.
pub const MAX_ASDU_BYTES: usize = 249;

/// A point with its present value.
#[derive(Debug, Clone)]
pub struct PointState {
    pub config: CollectPointConfig,
    pub value: Sample,
    pub counter_sequence: u8,
    pub updated_ms: u64,
}

#[verifier::ext_equal]
pub struct PointStateView {
    pub config: CollectPointView,
    pub value: SampleView,
    pub counter_sequence: u8,
    pub updated_ms: u64,
}

impl View for PointState {
    type V = PointStateView;

    open spec fn view(&self) -> PointStateView {
        PointStateView {
            config: self.config@,
            value: self.value@,
            counter_sequence: self.counter_sequence,
            updated_ms: self.updated_ms,
        }
    }
}

/// The range of a point is one; that of an integer point ends in integers of its
/// type.
pub open spec fn sound_range(config: CollectPointView) -> bool {
    let min = config.min.value;
    let max = config.max.value;
    &&& double_at_most(min.double, max.double)
    &&& match config.kind {
        CollectPointKind::Normalized | CollectPointKind::NormalizedNoQuality => min.integer_within(
            -32768,
            32767,
        ) && max.integer_within(-32768, 32767),
        CollectPointKind::Counter => min.integer_within(i32::MIN as int, i32::MAX as int)
            && max.integer_within(i32::MIN as int, i32::MAX as int),
        _ => true,
    }
}

fn has_sound_range(config: &CollectPointConfig) -> (result: bool)
    ensures
        result == sound_range(config@),
{
    let min = config.min.value;
    let max = config.max.value;
    if !min.at_most(max) {
        return false;
    }
    match config.kind {
        CollectPointKind::Normalized | CollectPointKind::NormalizedNoQuality => {
            min.is_integer_within(-32768, 32767) && max.is_integer_within(-32768, 32767)
        },
        CollectPointKind::Counter => min.is_integer_within(i32::MIN as i64, i32::MAX as i64)
            && max.is_integer_within(i32::MIN as i64, i32::MAX as i64),
        _ => true,
    }
}

impl PointStateView {
    /// The range of a point is one, its value lies in the range, and its counter
    /// has a number that fits.
    pub open spec fn sound(self) -> bool {
        &&& sound_range(self.config)
        &&& self.value.value.within(self.config.min.value, self.config.max.value)
        &&& self.counter_sequence < 32
    }

    /// The point as it is first configured.
    pub open spec fn fresh(config: CollectPointView, now: u64) -> PointStateView {
        PointStateView { config, value: config.initial, counter_sequence: 0, updated_ms: now }
    }

    pub open spec fn off(self) -> bool {
        self.value.value.equals_integer(0)
    }
}

impl PointState {
    pub fn copy(&self) -> (result: PointState)
        ensures
            result@ == self@,
    {
        PointState {
            config: self.config.copy(),
            value: self.value.copy(),
            counter_sequence: self.counter_sequence,
            updated_ms: self.updated_ms,
        }
    }
}

/// Points by their addresses.
struct PointsByAddress;

impl Order<PointState> for PointsByAddress {
    open spec fn precedes(&self, left: &PointState, right: &PointState) -> bool {
        left.config.ioa <= right.config.ioa
    }

    fn stands_before(&self, left: &PointState, right: &PointState) -> (result: bool) {
        left.config.ioa <= right.config.ioa
    }
}

pub open spec fn state_views(points: Seq<PointState>) -> Seq<PointStateView> {
    points.map_values(|point: PointState| point@)
}

/// The order of points by address.
pub open spec fn by_address() -> spec_fn(PointStateView, PointStateView) -> bool {
    |a: PointStateView, b: PointStateView| a.config.ioa <= b.config.ioa
}

/// The points of the collecting side.
#[derive(Debug, Clone)]
pub struct Station {
    pub points: Vec<PointState>,
}

impl View for Station {
    type V = Seq<PointStateView>;

    open spec fn view(&self) -> Seq<PointStateView> {
        state_views(self.points@)
    }
}

pub open spec fn sound_points(points: Seq<PointStateView>) -> bool {
    forall|i: int| 0 <= i < points.len() ==> (#[trigger] points[i]).sound()
}

/// The first position with a property.
pub open spec fn position(
    points: Seq<PointStateView>,
    picks: spec_fn(PointStateView) -> bool,
) -> Option<int>
    decreases points.len(),
{
    if points.len() == 0 {
        None
    } else {
        match position(points.drop_last(), picks) {
            Some(index) => Some(index),
            None => if picks(points.last()) {
                Some(points.len() - 1)
            } else {
                None
            },
        }
    }
}

pub proof fn lemma_position(points: Seq<PointStateView>, picks: spec_fn(PointStateView) -> bool)
    ensures
        match position(points, picks) {
            Some(index) => 0 <= index < points.len() && picks(points[index]) && forall|i: int|
                0 <= i < index ==> !picks(#[trigger] points[i]),
            None => forall|i: int| 0 <= i < points.len() ==> !picks(#[trigger] points[i]),
        },
    decreases points.len(),
{
    if points.len() > 0 {
        let before = points.drop_last();
        lemma_position(before, picks);
        assert forall|i: int| 0 <= i < before.len() implies before[i] == #[trigger] points[i] by {}
    }
}

// ---------------------------------------------------------------------------
// Rows for the operator.
pub open spec fn display_text(point: PointStateView) -> Seq<char> {
    match point.config.kind {
        CollectPointKind::SinglePoint => if point.off() {
            "0 / 分"@
        } else {
            "1 / 合"@
        },
        CollectPointKind::DoublePoint => if point.off() {
            "0 / 分（DPI=1）"@
        } else {
            "1 / 合（DPI=2）"@
        },
        CollectPointKind::Normalized => point.value.rounded,
        CollectPointKind::NormalizedNoQuality => point.value.rounded,
        CollectPointKind::Counter => point.value.rounded,
        CollectPointKind::Float => point.value.fixed,
    }
}

pub fn display_value(point: &PointState) -> (result: String)
    ensures
        result@ == display_text(point@),
{
    match point.config.kind {
        CollectPointKind::SinglePoint => {
            if point.value.value.is_integer(0) {
                "0 / 分".to_owned()
            } else {
                "1 / 合".to_owned()
            }
        },
        CollectPointKind::DoublePoint => {
            if point.value.value.is_integer(0) {
                "0 / 分（DPI=1）".to_owned()
            } else {
                "1 / 合（DPI=2）".to_owned()
            }
        },
        CollectPointKind::Normalized
        | CollectPointKind::NormalizedNoQuality
        | CollectPointKind::Counter => point.value.rounded.clone(),
        CollectPointKind::Float => point.value.fixed.clone(),
    }
}

/// The row of a point.
pub open spec fn point_row(point: PointStateView) -> PointRow {
    PointRow {
        ioa: point.config.ioa,
        name: point.config.name,
        type_id: point.config.kind.type_id_text(),
        kind_name: point.config.kind.label_text(),
        value: Some(display_text(point)),
        quality: raised(point.config.quality),
        updated_ms: Some(point.updated_ms),
        configured: true,
    }
}

/// The rows of the points, by address.
pub open spec fn station_rows(points: Seq<PointStateView>) -> Seq<PointRow> {
    sorted_by(points.map_values(|point: PointStateView| point_row(point)), rows_by_address())
}

impl Station {
    pub fn new(points: Vec<CollectPointConfig>, now: u64) -> (result: Station)
        ensures
            result@ == collect_views(points@).map_values(
                |config: CollectPointView| PointStateView::fresh(config, now),
            ),
    {
        let mut states: Vec<PointState> = Vec::new();
        let mut index: usize = 0;
        while index < points.len()
            invariant
                index <= points@.len(),
                states@.len() == index,
                forall|i: int|
                    0 <= i < index ==> (#[trigger] states@[i])@ == PointStateView::fresh(
                        points@[i]@,
                        now,
                    ),
            decreases points.len() - index,
        {
            let config = points[index].copy();
            states.push(
                PointState {
                    value: config.initial.copy(),
                    config,
                    counter_sequence: 0,
                    updated_ms: now,
                },
            );
            index += 1;
        }
        let result = Station { points: states };
        assert(result@ =~= collect_views(points@).map_values(
            |config: CollectPointView| PointStateView::fresh(config, now),
        ));
        result
    }

    pub fn copy(&self) -> (result: Station)
        ensures
            result@ == self@,
    {
        let mut states: Vec<PointState> = Vec::new();
        let mut index: usize = 0;
        while index < self.points.len()
            invariant
                index <= self.points@.len(),
                states@.len() == index,
                forall|i: int| 0 <= i < index ==> (#[trigger] states@[i])@ == self.points@[i]@,
            decreases self.points.len() - index,
        {
            states.push(self.points[index].copy());
            index += 1;
        }
        let result = Station { points: states };
        assert(result@ =~= self@);
        result
    }

    /// The ranges of the points are ranges that hold their values, and their
    /// counters have numbers that fit.
    pub fn is_sound(&self) -> (result: bool)
        ensures
            result == sound_points(self@),
    {
        let mut index: usize = 0;
        while index < self.points.len()
            invariant
                index <= self.points@.len(),
                forall|i: int| 0 <= i < index ==> (#[trigger] self@[i]).sound(),
            decreases self.points.len() - index,
        {
            let point = &self.points[index];
            assert(self@[index as int] == point@);
            let min = point.config.min.value;
            let max = point.config.max.value;
            if !has_sound_range(&point.config) || !point.value.value.is_within(min, max)
                || point.counter_sequence >= 32 {
                assert(!self@[index as int].sound());
                return false;
            }
            index += 1;
        }
        true
    }

    /// The rows that the operator sees, by address.
    pub fn views(&self) -> (result: Vec<PointView>)
        ensures
            rows(result@) == station_rows(self@),
    {
        let mut unsorted: Vec<PointView> = Vec::new();
        let mut index: usize = 0;
        while index < self.points.len()
            invariant
                index <= self.points@.len(),
                unsorted@.len() == index,
                forall|i: int|
                    0 <= i < index ==> (#[trigger] unsorted@[i])@ == point_row(self.points@[i]@),
            decreases self.points.len() - index,
        {
            let point = &self.points[index];
            unsorted.push(
                PointView {
                    ioa: point.config.ioa,
                    name: point.config.name.clone(),
                    type_id: point.config.kind.type_id().to_owned(),
                    kind_name: point.config.kind.label().to_owned(),
                    value: Some(display_value(point)),
                    quality: ascii_uppercase(point.config.quality.as_str()),
                    updated_ms: Some(point.updated_ms),
                    configured: true,
                },
            );
            index += 1;
        }
        proof {
            assert(rows(unsorted@) =~= self@.map_values(|point: PointStateView| point_row(point)));
            let view = |row: PointView| row@;
            lemma_sorting_views(
                unsorted@,
                order_of::<PointView, RowsByAddress>(&RowsByAddress),
                view,
                rows_by_address(),
            );
            assert(rows(unsorted@) =~= unsorted@.map_values(view));
        }
        let result = stable_sort(unsorted, &RowsByAddress);
        proof {
            assert(rows(result@) =~= result@.map_values(|row: PointView| row@));
        }
        result
    }
}

// ---------------------------------------------------------------------------
// A new point table.
pub open spec fn same_point(config: CollectPointView) -> spec_fn(PointStateView) -> bool {
    |point: PointStateView| point.config.ioa == config.ioa && point.config.kind == config.kind
}

/// A point after its table was replaced: it keeps its value where the point was
/// there before and the value lies in the new range.
pub open spec fn reconfigured_point(
    points: Seq<PointStateView>,
    config: CollectPointView,
    now: u64,
) -> PointStateView {
    match position(points, same_point(config)) {
        Some(index) => if points[index].value.value.within(config.min.value, config.max.value) {
            PointStateView { config, ..points[index] }
        } else {
            PointStateView::fresh(config, now)
        },
        None => PointStateView::fresh(config, now),
    }
}

impl Station {
    fn find_same(&self, config: &CollectPointConfig) -> (result: Option<usize>)
        ensures
            match result {
                Some(index) => position(self@, same_point(config@)) == Some(index as int) && index
                    < self.points@.len(),
                None => position(self@, same_point(config@)) is None,
            },
    {
        let mut index: usize = 0;
        assert(self@.take(0) =~= Seq::<PointStateView>::empty());
        while index < self.points.len()
            invariant
                index <= self.points@.len(),
                position(self@.take(index as int), same_point(config@)) is None,
            decreases self.points.len() - index,
        {
            let ghost longer = self@.take(index + 1);
            assert(longer.drop_last() =~= self@.take(index as int));
            assert(longer.last() == self.points@[index as int]@);
            if self.points[index].config.ioa == config.ioa && self.points[index].config.kind
                == config.kind {
                proof {
                    lemma_position_of_prefix(self@, same_point(config@), index + 1);
                }
                return Some(index);
            }
            index += 1;
        }
        assert(self@.take(index as int) =~= self@);
        None
    }

    /// The station with another point table.
    pub fn reconfigured(&self, points: Vec<CollectPointConfig>, now: u64) -> (result: Station)
        ensures
            result@ == collect_views(points@).map_values(
                |config: CollectPointView| reconfigured_point(self@, config, now),
            ),
    {
        let mut states: Vec<PointState> = Vec::new();
        let mut index: usize = 0;
        while index < points.len()
            invariant
                index <= points@.len(),
                states@.len() == index,
                forall|i: int|
                    0 <= i < index ==> (#[trigger] states@[i])@ == reconfigured_point(
                        self@,
                        points@[i]@,
                        now,
                    ),
            decreases points.len() - index,
        {
            let config = points[index].copy();
            let found = self.find_same(&config);
            let mut state = PointState {
                value: config.initial.copy(),
                config,
                counter_sequence: 0,
                updated_ms: now,
            };
            if let Some(previous) = found {
                let point = &self.points[previous];
                if point.value.value.is_within(state.config.min.value, state.config.max.value) {
                    state.value = point.value.copy();
                    state.counter_sequence = point.counter_sequence;
                    state.updated_ms = point.updated_ms;
                }
            }
            assert(state@ =~= reconfigured_point(self@, points@[index as int]@, now));
            states.push(state);
            index += 1;
        }
        let result = Station { points: states };
        assert(result@ =~= collect_views(points@).map_values(
            |config: CollectPointView| reconfigured_point(self@, config, now),
        ));
        result
    }
}

/// A position that a prefix has is the position in the whole.
pub proof fn lemma_position_of_prefix(
    points: Seq<PointStateView>,
    picks: spec_fn(PointStateView) -> bool,
    length: int,
)
    requires
        0 <= length <= points.len(),
        position(points.take(length), picks) is Some,
    ensures
        position(points, picks) == position(points.take(length), picks),
    decreases points.len() - length,
{
    if length < points.len() {
        assert(points.take(length + 1).drop_last() =~= points.take(length));
        lemma_position_of_prefix(points, picks, length + 1);
    } else {
        assert(points.take(length) =~= points);
    }
}

// ---------------------------------------------------------------------------
// Refreshing values.
/// The report covers the point.
pub open spec fn upload_covers(upload: UploadKind, config: CollectPointView) -> bool {
    match upload {
        UploadKind::CurrentValues => true,
        UploadKind::RefreshAll => true,
        UploadKind::SinglePoint => config.kind is SinglePoint,
        UploadKind::DoublePoint => config.kind is DoublePoint,
        UploadKind::Normalized => config.kind is Normalized,
        UploadKind::NormalizedNoQuality => config.kind is NormalizedNoQuality,
        UploadKind::Float => config.kind is Float,
        UploadKind::Counter => config.kind is Counter,
        UploadKind::SingleSoe => config.kind is SinglePoint && config.soe,
        UploadKind::DoubleSoe => config.kind is DoublePoint && config.soe,
        UploadKind::InitializationEnd => false,
    }
}

pub open spec fn selected(upload: UploadKind, point: PointStateView) -> bool {
    point.config.purpose.data() && upload_covers(upload, point.config)
}

pub fn upload_matches(upload: UploadKind, point: &PointState) -> (result: bool)
    ensures
        result == upload_covers(upload, point@.config),
{
    match upload {
        UploadKind::CurrentValues | UploadKind::RefreshAll => true,
        UploadKind::SinglePoint => point.config.kind == CollectPointKind::SinglePoint,
        UploadKind::DoublePoint => point.config.kind == CollectPointKind::DoublePoint,
        UploadKind::Normalized => point.config.kind == CollectPointKind::Normalized,
        UploadKind::NormalizedNoQuality => point.config.kind
            == CollectPointKind::NormalizedNoQuality,
        UploadKind::Float => point.config.kind == CollectPointKind::Float,
        UploadKind::Counter => point.config.kind == CollectPointKind::Counter,
        UploadKind::SingleSoe => point.config.kind == CollectPointKind::SinglePoint
            && point.config.soe,
        UploadKind::DoubleSoe => point.config.kind == CollectPointKind::DoublePoint
            && point.config.soe,
        UploadKind::InitializationEnd => false,
    }
}

/// The sample is the one of an integer.
pub open spec fn integer_sample(sample: SampleView, number: int) -> bool {
    &&& sample == whole_sample(number)
    &&& sample.value.equals_integer(number)
}

/// The drawn sample, or the end of the range that it lies beyond.
pub open spec fn clamped(drawn: SampleView, config: CollectPointView) -> SampleView {
    if !double_at_most(config.min.value.double, drawn.value.double) {
        config.min
    } else if !double_at_most(drawn.value.double, config.max.value.double) {
        config.max
    } else {
        drawn
    }
}

fn clamp(drawn: &Sample, config: &CollectPointConfig) -> (result: Sample)
    ensures
        result@ == clamped(drawn@, config@),
{
    if !config.min.value.at_most(drawn.value) {
        config.min.copy()
    } else if !drawn.value.at_most(config.max.value) {
        config.max.copy()
    } else {
        drawn.copy()
    }
}

/// A value that a point may have after a refresh: a discrete one is the other
/// state, where the range holds it; an integer one lies in the range and is
/// another one where the range has more than one; a float is the drawn one,
/// kept in the range, or an end of the range where that is the present value.
pub open spec fn refreshed_value(
    point: PointStateView,
    drawn: SampleView,
    value: SampleView,
) -> bool {
    let config = point.config;
    match config.kind {
        CollectPointKind::SinglePoint | CollectPointKind::DoublePoint => value == (if state_sample(
            point.off(),
        ).value.within(config.min.value, config.max.value) {
            state_sample(point.off())
        } else {
            point.value
        }),
        CollectPointKind::Normalized | CollectPointKind::NormalizedNoQuality => another_integer(
            point,
            config.min.value.saturated(-32768, 32767),
            config.max.value.saturated(-32768, 32767),
            value,
        ),
        CollectPointKind::Counter => another_integer(
            point,
            config.min.value.saturated(i32::MIN as int, i32::MAX as int),
            config.max.value.saturated(i32::MIN as int, i32::MAX as int),
            value,
        ),
        CollectPointKind::Float => value == (if config.min.value.same(config.max.value) {
            config.min
        } else if !clamped(drawn, config).value.same(point.value.value) {
            clamped(drawn, config)
        } else if !point.value.value.same(config.min.value) {
            config.min
        } else {
            config.max
        }),
    }
}

pub open spec fn another_integer(
    point: PointStateView,
    min: int,
    max: int,
    value: SampleView,
) -> bool {
    exists|number: int|
        min <= number <= max && (min < max ==> !point.value.value.equals_integer(number))
            && #[trigger] integer_sample(value, number)
}

fn choose_integer(point: &PointState, min: i32, max: i32, sampled: i32) -> (result: Sample)
    requires
        min <= sampled <= max,
    ensures
        another_integer(point@, min as int, max as int, result@),
{
    let number: i32 = if min == max || !point.value.value.is_integer(sampled) {
        sampled
    } else {
        proof {
            crate::number::lemma_whole_is_injective(sampled as int, sampled as int + 1);
            crate::number::lemma_whole_is_injective(sampled as int, min as int);
        }
        if sampled < max {
            sampled + 1
        } else {
            min
        }
    };
    let sample = Sample::from_integer(number);
    assert(integer_sample(sample@, number as int));
    sample
}

/// An integer between the ends of an integer range lies in the range.
proof fn lemma_integer_in_range(min: Real, max: Real, least: int, most: int, value: Real, number: int)
    requires
        min.integer_within(least, most),
        max.integer_within(least, most),
        min.saturated(least, most) <= number <= max.saturated(least, most),
        value.equals_integer(number),
    ensures
        value.within(min, max),
{
    let lower = choose|n: int| least <= n <= most && #[trigger] min.equals_integer(n);
    let upper = choose|n: int| least <= n <= most && #[trigger] max.equals_integer(n);
    crate::number::lemma_whole_is_saturated(min, lower, least, most);
    crate::number::lemma_whole_is_saturated(max, upper, least, most);
    crate::number::lemma_whole_is_ordered(min, lower, value, number);
    crate::number::lemma_whole_is_ordered(value, number, max, upper);
}

/// Whatever a refresh leads to lies in the range of the point.
proof fn lemma_refreshed_value_lies_in_range(
    point: PointStateView,
    drawn: SampleView,
    value: SampleView,
)
    requires
        point.sound(),
        refreshed_value(point, drawn, value),
    ensures
        value.value.within(point.config.min.value, point.config.max.value),
{
    let min = point.config.min.value;
    let max = point.config.max.value;
    match point.config.kind {
        CollectPointKind::Normalized | CollectPointKind::NormalizedNoQuality => {
            let number = choose|number: int|
                min.saturated(-32768, 32767) <= number <= max.saturated(-32768, 32767) && (
                min.saturated(-32768, 32767) < max.saturated(-32768, 32767)
                    ==> !point.value.value.equals_integer(number)) && #[trigger] integer_sample(
                    value,
                    number,
                );
            lemma_integer_in_range(min, max, -32768, 32767, value.value, number);
        },
        CollectPointKind::Counter => {
            let least = i32::MIN as int;
            let most = i32::MAX as int;
            let number = choose|number: int|
                min.saturated(least, most) <= number <= max.saturated(least, most) && (
                min.saturated(least, most) < max.saturated(least, most)
                    ==> !point.value.value.equals_integer(number)) && #[trigger] integer_sample(
                    value,
                    number,
                );
            lemma_integer_in_range(min, max, least, most, value.value, number);
        },
        _ => {},
    }
}

fn random_value(point: &PointState, rng: &mut fastrand::Rng, drawn: &Sample) -> (result: Sample)
    requires
        point@.sound(),
    ensures
        refreshed_value(point@, drawn@, result@),
        result@.value.within(point@.config.min.value, point@.config.max.value),
{
    let result = sampled_value(point, rng, drawn);
    proof {
        lemma_refreshed_value_lies_in_range(point@, drawn@, result@);
    }
    result
}

fn sampled_value(point: &PointState, rng: &mut fastrand::Rng, drawn: &Sample) -> (result: Sample)
    requires
        point@.sound(),
    ensures
        refreshed_value(point@, drawn@, result@),
{
    match point.config.kind {
        CollectPointKind::SinglePoint | CollectPointKind::DoublePoint => {
            let other = Sample::of_state(point.value.value.is_integer(0));
            if other.value.is_within(point.config.min.value, point.config.max.value) {
                other
            } else {
                point.value.copy()
            }
        },
        CollectPointKind::Normalized | CollectPointKind::NormalizedNoQuality => {
            proof {
                crate::number::lemma_saturated_is_ordered(
                    point.config.min.value,
                    point.config.max.value,
                    -32768,
                    32767,
                );
            }
            let min: i16 = point.config.min.value.saturating_i16();
            let max: i16 = point.config.max.value.saturating_i16();
            let sampled: i16 = random_i16(rng, min, max);
            choose_integer(point, min as i32, max as i32, sampled as i32)
        },
        CollectPointKind::Counter => {
            proof {
                crate::number::lemma_saturated_is_ordered(
                    point.config.min.value,
                    point.config.max.value,
                    i32::MIN as int,
                    i32::MAX as int,
                );
            }
            let min: i32 = point.config.min.value.saturating_i32();
            let max: i32 = point.config.max.value.saturating_i32();
            let sampled: i32 = random_i32(rng, min, max);
            choose_integer(point, min, max, sampled)
        },
        CollectPointKind::Float => {
            let drawn = clamp(drawn, &point.config);
            if point.config.min.value.equals(point.config.max.value) {
                point.config.min.copy()
            } else if !drawn.value.equals(point.value.value) {
                drawn
            } else if !point.value.value.equals(point.config.min.value) {
                point.config.min.copy()
            } else {
                point.config.max.copy()
            }
        },
    }
}

/// A point after a refresh of the kind.
pub open spec fn refreshed_point(
    upload: UploadKind,
    before: PointStateView,
    drawn: SampleView,
    now: u64,
    after: PointStateView,
) -> bool {
    if upload is CurrentValues || !selected(upload, before) {
        after == before
    } else {
        &&& after.config == before.config
        &&& refreshed_value(before, drawn, after.value)
        &&& after.counter_sequence == (if before.config.kind is Counter {
            ((before.counter_sequence + 1) % 32) as u8
        } else {
            before.counter_sequence
        })
        &&& after.updated_ms == now
    }
}

/// How many points a report covers.
pub open spec fn selected_count(upload: UploadKind, points: Seq<PointStateView>) -> nat
    decreases points.len(),
{
    if points.len() == 0 {
        0
    } else {
        selected_count(upload, points.drop_last()) + if selected(upload, points.last()) {
            1nat
        } else {
            0
        }
    }
}

impl Station {
    pub fn count_for_upload(&self, upload: UploadKind) -> (result: usize)
        ensures
            result == selected_count(upload, self@),
    {
        let mut count: usize = 0;
        let mut index: usize = 0;
        assert(self@.take(0) =~= Seq::<PointStateView>::empty());
        while index < self.points.len()
            invariant
                index <= self.points@.len(),
                count <= index,
                count == selected_count(upload, self@.take(index as int)),
            decreases self.points.len() - index,
        {
            assert(self@.take(index + 1).drop_last() =~= self@.take(index as int));
            assert(self@.take(index + 1).last() == self.points@[index as int]@);
            let point = &self.points[index];
            if point.config.purpose.includes_data() && upload_matches(upload, point) {
                count += 1;
            }
            index += 1;
        }
        assert(self@.take(index as int) =~= self@);
        count
    }

    /// Gives each point that a report covers a new value. A float point takes
    /// the sample that was drawn for its position.
    pub fn refresh_with_rng(
        &mut self,
        upload: UploadKind,
        rng: &mut fastrand::Rng,
        drawn: &Vec<Sample>,
        now: u64,
    ) -> (result: usize)
        requires
            sound_points(old(self)@),
            drawn@.len() == old(self)@.len(),
        ensures
            result == selected_count(upload, old(self)@),
            final(self)@.len() == old(self)@.len(),
            forall|i: int|
                0 <= i < old(self)@.len() ==> refreshed_point(
                    upload,
                    old(self)@[i],
                    drawn@[i]@,
                    now,
                    #[trigger] final(self)@[i],
                ),
            sound_points(final(self)@),
    {
        let count: usize = self.count_for_upload(upload);
        if upload == UploadKind::CurrentValues {
            return count;
        }
        let ghost before = self@;
        let mut index: usize = 0;
        while index < self.points.len()
            invariant
                index <= self.points@.len(),
                self.points@.len() == before.len(),
                drawn@.len() == before.len(),
                sound_points(before),
                upload !is CurrentValues,
                forall|i: int|
                    0 <= i < index ==> refreshed_point(
                        upload,
                        before[i],
                        drawn@[i]@,
                        now,
                        (#[trigger] self.points@[i])@,
                    ) && self.points@[i]@.sound(),
                forall|i: int|
                    index <= i < before.len() ==> (#[trigger] self.points@[i])@ == before[i],
            decreases self.points.len() - index,
        {
            assert(before[index as int].sound());
            let mut state = self.points[index].copy();
            if state.config.purpose.includes_data() && upload_matches(upload, &state) {
                state.value = random_value(&state, rng, &drawn[index]);
                if state.config.kind == CollectPointKind::Counter {
                    state.counter_sequence = (state.counter_sequence + 1) % 32;
                }
                state.updated_ms = now;
            }
            let ghost changed = state@;
            self.points.set(index, state);
            index += 1;
        }
        assert forall|i: int| 0 <= i < before.len() implies refreshed_point(
            upload,
            before[i],
            drawn@[i]@,
            now,
            #[trigger] self@[i],
        ) by {
            assert(self.points@[i]@ == self@[i]);
        }
        assert forall|i: int| 0 <= i < self@.len() implies (#[trigger] self@[i]).sound() by {
            assert(self.points@[i]@ == self@[i]);
        }
        count
    }

    /// Gives each point that a report covers a new value.
    pub fn refresh(&mut self, upload: UploadKind, drawn: &Vec<Sample>, now: u64) -> (result: usize)
        requires
            sound_points(old(self)@),
            drawn@.len() == old(self)@.len(),
        ensures
            result == selected_count(upload, old(self)@),
            final(self)@.len() == old(self)@.len(),
            forall|i: int|
                0 <= i < old(self)@.len() ==> refreshed_point(
                    upload,
                    old(self)@[i],
                    drawn@[i]@,
                    now,
                    #[trigger] final(self)@[i],
                ),
            sound_points(final(self)@),
    {
        let mut rng = crate::random::seeded_rng();
        self.refresh_with_rng(upload, &mut rng, drawn, now)
    }
}

/// The range of a point holds more than one value that a refresh can lead to.
pub open spec fn has_another_value(config: CollectPointView) -> bool {
    match config.kind {
        CollectPointKind::SinglePoint | CollectPointKind::DoublePoint => forall|on: bool|
            #[trigger]
            state_sample(on).value.within(config.min.value, config.max.value),
        CollectPointKind::Normalized | CollectPointKind::NormalizedNoQuality => {
            config.min.value.saturated(-32768, 32767) < config.max.value.saturated(-32768, 32767)
        },
        CollectPointKind::Counter => config.min.value.saturated(i32::MIN as int, i32::MAX as int)
            < config.max.value.saturated(i32::MIN as int, i32::MAX as int),
        CollectPointKind::Float => !config.min.value.same(config.max.value),
    }
}

/// A refresh changes the value of every point that it covers and has another
/// value to go to, and of no other point; a report of current values changes
/// nothing.
pub proof fn law_refresh_changes_what_it_covers(
    upload: UploadKind,
    before: PointStateView,
    drawn: SampleView,
    now: u64,
    after: PointStateView,
)
    requires
        refreshed_point(upload, before, drawn, now, after),
        before.value.value.finite(),
    ensures
        upload is CurrentValues ==> after == before,
        !selected(upload, before) ==> after == before,
        after.config == before.config,
        selected(upload, before) && upload !is CurrentValues && has_another_value(before.config)
            ==> !after.value.value.same(before.value.value),
{
    if selected(upload, before) && upload !is CurrentValues {
        crate::number::lemma_whole_is_injective(0, 1);
        crate::number::law_state_is_zero_or_one(before.off());
        assert(before.config.kind is SinglePoint || before.config.kind is DoublePoint ==> {
            has_another_value(before.config) ==> state_sample(before.off()).value.within(
                before.config.min.value,
                before.config.max.value,
            )
        });
    }
}

/// A refresh leaves every value in the range of its point.
pub proof fn law_refresh_stays_in_range(
    upload: UploadKind,
    before: PointStateView,
    drawn: SampleView,
    now: u64,
    after: PointStateView,
)
    requires
        refreshed_point(upload, before, drawn, now, after),
        before.sound(),
    ensures
        after.sound(),
        after.config == before.config,
{
    if selected(upload, before) && upload !is CurrentValues {
        lemma_refreshed_value_lies_in_range(before, drawn, after.value);
    }
}

// ---------------------------------------------------------------------------
// Values that the operator sets.
pub open spec fn of_type(ioa: u32, type_id: Seq<char>) -> spec_fn(PointStateView) -> bool {
    |point: PointStateView|
        point.config.ioa == ioa && point.config.kind.type_id_text() == type_id
}

pub open spec fn missing_text(ioa: u32, type_id: Seq<char>) -> Seq<char> {
    "点表中不存在 "@ + type_id + "/IOA="@ + decimal(ioa as nat)
}

pub open spec fn ioa_text(ioa: u32) -> Seq<char> {
    "IOA="@ + decimal(ioa as nat)
}

/// Why a value is refused for a point, if it is.
pub open spec fn value_refusal(point: PointStateView, value: Real) -> Option<Seq<char>> {
    let config = point.config;
    if !value.finite() || !value.within(config.min.value, config.max.value) {
        Some(
            ioa_text(config.ioa) + " 的值必须在 ["@ + config.min.plain + ", "@ + config.max.plain
                + "] 范围内"@,
        )
    } else {
        match config.kind {
            CollectPointKind::SinglePoint | CollectPointKind::DoublePoint => if value
                .equals_integer(0) || value.equals_integer(1) {
                None
            } else {
                Some(ioa_text(config.ioa) + " 的离散值只能是 0 或 1"@)
            },
            CollectPointKind::Normalized | CollectPointKind::NormalizedNoQuality => if value
                .integer_within(-32768, 32767) {
                None
            } else {
                Some(ioa_text(config.ioa) + " 的归一化值必须是 i16 范围整数"@)
            },
            CollectPointKind::Counter => if value.integer_within(i32::MIN as int, i32::MAX as int) {
                None
            } else {
                Some(ioa_text(config.ioa) + " 的电度值必须是 i32 范围整数"@)
            },
            CollectPointKind::Float => None,
        }
    }
}

/// The station after the operator set a value, and what the operator is told.
pub open spec fn after_set_value(
    points: Seq<PointStateView>,
    ioa: u32,
    type_id: Seq<char>,
    value: SampleView,
    now: u64,
) -> (Seq<PointStateView>, Result<Seq<char>, Seq<char>>) {
    match position(points, of_type(ioa, type_id)) {
        None => (points, Err(missing_text(ioa, type_id))),
        Some(index) => match value_refusal(points[index], value.value) {
            Some(text) => (points, Err(text)),
            None => {
                let after = PointStateView { value, updated_ms: now, ..points[index] };
                (points.update(index, after), Ok(display_text(after)))
            },
        },
    }
}

pub open spec fn text_result(result: Result<String, String>) -> Result<Seq<char>, Seq<char>> {
    match result {
        Ok(text) => Ok(text@),
        Err(text) => Err(text@),
    }
}

fn cat_ioa(ioa: u32) -> (result: String)
    ensures
        result@ == ioa_text(ioa),
{
    cat_number("IOA=".to_owned(), ioa as u64)
}

fn check_value(point: &PointState, value: Real) -> (result: Result<(), String>)
    ensures
        crate::config::refusal_of(result) == value_refusal(point@, value),
{
    let ioa: u32 = point.config.ioa;
    if !value.is_finite() || !value.is_within(point.config.min.value, point.config.max.value) {
        let text = cat(cat(cat_ioa(ioa), " 的值必须在 ["), point.config.min.plain.as_str());
        let text = cat(cat(text, ", "), point.config.max.plain.as_str());
        return Err(cat(text, "] 范围内"));
    }
    match point.config.kind {
        CollectPointKind::SinglePoint | CollectPointKind::DoublePoint => {
            if !value.is_integer(0) && !value.is_integer(1) {
                return Err(cat(cat_ioa(ioa), " 的离散值只能是 0 或 1"));
            }
        },
        CollectPointKind::Normalized | CollectPointKind::NormalizedNoQuality => {
            if !value.is_integer_within(-32768, 32767) {
                return Err(cat(cat_ioa(ioa), " 的归一化值必须是 i16 范围整数"));
            }
        },
        CollectPointKind::Counter => {
            if !value.is_integer_within(i32::MIN as i64, i32::MAX as i64) {
                return Err(cat(cat_ioa(ioa), " 的电度值必须是 i32 范围整数"));
            }
        },
        CollectPointKind::Float => {},
    }
    Ok(())
}

impl Station {
    fn find_type(&self, ioa: u32, type_id: &str) -> (result: Option<usize>)
        ensures
            match result {
                Some(index) => position(self@, of_type(ioa, type_id@)) == Some(index as int)
                    && index < self.points@.len(),
                None => position(self@, of_type(ioa, type_id@)) is None,
            },
    {
        let mut index: usize = 0;
        assert(self@.take(0) =~= Seq::<PointStateView>::empty());
        while index < self.points.len()
            invariant
                index <= self.points@.len(),
                position(self@.take(index as int), of_type(ioa, type_id@)) is None,
            decreases self.points.len() - index,
        {
            let ghost longer = self@.take(index + 1);
            assert(longer.drop_last() =~= self@.take(index as int));
            assert(longer.last() == self.points@[index as int]@);
            if self.points[index].config.ioa == ioa && same_text(
                self.points[index].config.kind.type_id(),
                type_id,
            ) {
                proof {
                    lemma_position_of_prefix(self@, of_type(ioa, type_id@), index + 1);
                }
                return Some(index);
            }
            index += 1;
        }
        assert(self@.take(index as int) =~= self@);
        None
    }

    /// Puts a value in place of the one at a position.
    fn put_value(&mut self, index: usize, value: Sample, now: u64)
        requires
            index < old(self).points@.len(),
        ensures
            final(self)@ == old(self)@.update(
                index as int,
                (PointStateView { value: value@, updated_ms: now, ..old(self)@[index as int] }),
            ),
            final(self).points@.len() == old(self).points@.len(),
    {
        let mut state = self.points[index].copy();
        state.value = value;
        state.updated_ms = now;
        let ghost before = self@;
        self.points.set(index, state);
        assert(self@ =~= before.update(
            index as int,
            (PointStateView { value: value@, updated_ms: now, ..before[index as int] }),
        ));
    }

    /// Sets a value at the wish of the operator, and says how it is shown.
    pub fn set_value(&mut self, ioa: u32, type_id: &str, value: Sample, now: u64) -> (result: Result<
        String,
        String,
    >)
        ensures
            (final(self)@, text_result(result)) == after_set_value(
                old(self)@,
                ioa,
                type_id@,
                value@,
                now,
            ),
    {
        let found = self.find_type(ioa, type_id);
        let index: usize = match found {
            Some(index) => index,
            None => {
                let text = cat(cat("点表中不存在 ".to_owned(), type_id), "/IOA=");
                return Err(cat_number(text, ioa as u64));
            },
        };
        proof {
            lemma_position(self@, of_type(ioa, type_id@));
        }
        if let Err(text) = check_value(&self.points[index], value.value) {
            return Err(text);
        }
        let ghost before = self@;
        self.put_value(index, value, now);
        let shown = display_value(&self.points[index]);
        assert(self.points@[index as int]@ == self@[index as int]);
        Ok(shown)
    }
}

// ---------------------------------------------------------------------------
// Control targets.
pub open spec fn control_target(ioa: u32, kind: ControlKind) -> spec_fn(PointStateView) -> bool {
    |point: PointStateView|
        point.config.ioa == ioa && point.config.purpose.control() && point.config.control == Some(
            kind,
        )
}

pub open spec fn control_name(kind: ControlKind) -> Seq<char> {
    match kind {
        ControlKind::Single => "Single"@,
        ControlKind::Double => "Double"@,
        ControlKind::Setpoint => "Setpoint"@,
        ControlKind::Regulating => "Regulating"@,
    }
}

fn control_label(kind: ControlKind) -> (result: &'static str)
    ensures
        result@ == control_name(kind),
{
    match kind {
        ControlKind::Single => "Single",
        ControlKind::Double => "Double",
        ControlKind::Setpoint => "Setpoint",
        ControlKind::Regulating => "Regulating",
    }
}

/// What a command asks of its target.
#[derive(Debug, Clone, Copy, PartialEq, Eq, Structural)]
pub enum ControlRequest {
    /// A state, where the command names one.
    State(Option<bool>),
    /// A step up or down, where the command names one; what is not whole is
    /// computed outside.
    Step(Option<bool>),
    /// A set point, which is computed outside.
    Setpoint,
}

/// The value one step above or below another: the sum where both are whole and
/// the sum is of a magnitude below `WHOLE_LIMIT`, else the computed one.
pub open spec fn stepped(current: Real, step: Real, up: bool, computed: SampleView) -> SampleView {
    match (current.whole_value(), step.whole_value()) {
        (Some(from), Some(by)) => {
            let sum = if up {
                from + by
            } else {
                from - by
            };
            if -WHOLE_LIMIT < sum < WHOLE_LIMIT {
                whole_sample(sum)
            } else {
                computed
            }
        },
        _ => computed,
    }
}

fn step_from(current: Real, step: Real, up: bool, computed: &Sample) -> (result: Sample)
    ensures
        result@ == stepped(current, step, up, computed@),
{
    match (current.whole_number(), step.whole_number()) {
        (Some(from), Some(by)) => {
            let sum: i64 = if up {
                from + by
            } else {
                from - by
            };
            if -WHOLE_LIMIT < sum && sum < WHOLE_LIMIT {
                Sample::from_integer(sum as i32)
            } else {
                computed.copy()
            }
        },
        _ => computed.copy(),
    }
}

/// A step up adds the step, and a step down takes it away again: among whole
/// numbers of magnitudes below `WHOLE_LIMIT` a step back restores the value.
pub proof fn law_whole_steps_add_up(
    current: int,
    step: int,
    from: Real,
    by: Real,
    up: bool,
    computed: SampleView,
)
    requires
        -WHOLE_LIMIT < current < WHOLE_LIMIT,
        -WHOLE_LIMIT < step < WHOLE_LIMIT,
        -WHOLE_LIMIT < current + step < WHOLE_LIMIT,
        -WHOLE_LIMIT < current - step < WHOLE_LIMIT,
        from.equals_integer(current),
        by.equals_integer(step),
    ensures
        ({
            let sum = if up {
                current + step
            } else {
                current - step
            };
            let after = stepped(from, by, up, computed);
            &&& after == whole_sample(sum)
            &&& after.value.equals_integer(sum)
            &&& stepped(after.value, by, !up, computed) == whole_sample(current)
        }),
{
    let sum = if up {
        current + step
    } else {
        current - step
    };
    crate::number::lemma_whole_real(sum);
    crate::number::lemma_whole_value(from, current);
    crate::number::lemma_whole_value(by, step);
    crate::number::lemma_whole_value(whole_real(sum), sum);
}

/// The value that a command leads to. A set point is the computed one.
pub open spec fn control_goal(
    point: PointStateView,
    ioa: u32,
    request: ControlRequest,
    computed: SampleView,
) -> Result<SampleView, Seq<char>> {
    match request {
        ControlRequest::Step(None) => Err(ioa_text(ioa) + " 升降值只能为 -1 或 1"@),
        ControlRequest::State(None) => Err(ioa_text(ioa) + " 离散控制值只能为 0 或 1"@),
        ControlRequest::State(Some(on)) => Ok(state_sample(on)),
        ControlRequest::Step(Some(up)) => Ok(
            stepped(point.value.value, point.config.step, up, computed),
        ),
        ControlRequest::Setpoint => Ok(computed),
    }
}

pub open spec fn beyond_range_text(ioa: u32, value: SampleView, config: CollectPointView) -> Seq<
    char,
> {
    ioa_text(ioa) + " 控制目标值 "@ + value.plain + " 超出 ["@ + config.min.plain + ", "@
        + config.max.plain + "]"@
}

/// What a command leads to: the value that its target is to have, or why it is
/// refused.
pub open spec fn control_outcome(
    points: Seq<PointStateView>,
    ioa: u32,
    kind: ControlKind,
    request: ControlRequest,
    computed: SampleView,
) -> Result<SampleView, Seq<char>> {
    match position(points, control_target(ioa, kind)) {
        None => Err(
            "没有匹配的控制目标：IOA="@ + decimal(ioa as nat) + " type="@ + control_name(kind),
        ),
        Some(index) => match control_goal(points[index], ioa, request, computed) {
            Err(text) => Err(text),
            Ok(value) => if value.value.finite() && value.value.within(
                points[index].config.min.value,
                points[index].config.max.value,
            ) {
                Ok(value)
            } else {
                Err(beyond_range_text(ioa, value, points[index].config))
            },
        },
    }
}

pub open spec fn sample_result(result: Result<Sample, String>) -> Result<SampleView, Seq<char>> {
    match result {
        Ok(sample) => Ok(sample@),
        Err(text) => Err(text@),
    }
}

impl Station {
    /// The position of a control target.
    pub fn point(&self, ioa: u32, kind: ControlKind) -> (result: Option<usize>)
        ensures
            match result {
                Some(index) => position(self@, control_target(ioa, kind)) == Some(index as int)
                    && index < self.points@.len(),
                None => position(self@, control_target(ioa, kind)) is None,
            },
    {
        let mut index: usize = 0;
        assert(self@.take(0) =~= Seq::<PointStateView>::empty());
        while index < self.points.len()
            invariant
                index <= self.points@.len(),
                position(self@.take(index as int), control_target(ioa, kind)) is None,
            decreases self.points.len() - index,
        {
            let ghost longer = self@.take(index + 1);
            assert(longer.drop_last() =~= self@.take(index as int));
            assert(longer.last() == self.points@[index as int]@);
            let point = &self.points[index];
            let commanded = match point.config.control {
                Some(own) => own == kind,
                None => false,
            };
            if point.config.ioa == ioa && point.config.purpose.includes_control() && commanded {
                proof {
                    lemma_position_of_prefix(self@, control_target(ioa, kind), index + 1);
                }
                return Some(index);
            }
            index += 1;
        }
        assert(self@.take(index as int) =~= self@);
        None
    }

    /// The value that a command leads to.
    pub fn control_value(
        &self,
        ioa: u32,
        kind: ControlKind,
        request: ControlRequest,
        computed: &Sample,
    ) -> (result: Result<Sample, String>)
        ensures
            sample_result(result) == control_outcome(self@, ioa, kind, request, computed@),
    {
        let index: usize = match self.point(ioa, kind) {
            Some(index) => index,
            None => {
                let text = cat(
                    cat_number("没有匹配的控制目标：IOA=".to_owned(), ioa as u64),
                    " type=",
                );
                return Err(cat(text, control_label(kind)));
            },
        };
        let point = &self.points[index];
        assert(point@ == self@[index as int]);
        let goal = match request {
            ControlRequest::Step(None) => Err(cat(cat_ioa(ioa), " 升降值只能为 -1 或 1")),
            ControlRequest::State(None) => Err(cat(cat_ioa(ioa), " 离散控制值只能为 0 或 1")),
            ControlRequest::State(Some(on)) => Ok(Sample::of_state(on)),
            ControlRequest::Step(Some(up)) => Ok(
                step_from(point.value.value, point.config.step, up, computed),
            ),
            ControlRequest::Setpoint => Ok(computed.copy()),
        };
        assert(control_goal(point@, ioa, request, computed@) == sample_result(goal));
        let value = match goal {
            Ok(value) => value,
            Err(text) => {
                return Err(text);
            },
        };
        let config = &point.config;
        if !value.value.is_finite() || !value.value.is_within(config.min.value, config.max.value) {
            let text = cat(cat(cat_ioa(ioa), " 控制目标值 "), value.plain.as_str());
            let text = cat(cat(text, " 超出 ["), config.min.plain.as_str());
            let text = cat(cat(cat(text, ", "), config.max.plain.as_str()), "]");
            return Err(text);
        }
        Ok(value)
    }

    /// Gives a control target the value that a command led to.
    pub fn commit_control(&mut self, ioa: u32, kind: ControlKind, value: Sample, now: u64) -> (result:
        Result<(), String>)
        ensures
            match position(old(self)@, control_target(ioa, kind)) {
                None => crate::config::refusal_of(result) == Some(
                    "控制提交时未找到 IOA="@ + decimal(ioa as nat),
                ) && final(self)@ == old(self)@,
                Some(index) => result is Ok && final(self)@ == old(self)@.update(
                    index,
                    (PointStateView { value: value@, updated_ms: now, ..old(self)@[index] }),
                ),
            },
    {
        let index: usize = match self.point(ioa, kind) {
            Some(index) => index,
            None => {
                return Err(cat_number("控制提交时未找到 IOA=".to_owned(), ioa as u64));
            },
        };
        self.put_value(index, value, now);
        Ok(())
    }
}

// ---------------------------------------------------------------------------
// Units that report points.
/// Reports of changes with a time tag.
#[derive(Debug, Clone, Copy, PartialEq, Eq, Structural)]
pub enum SoeKind {
    Single,
    Double,
}

pub open spec fn kind_debug(kind: CollectPointKind) -> Seq<char> {
    match kind {
        CollectPointKind::SinglePoint => "SinglePoint"@,
        CollectPointKind::DoublePoint => "DoublePoint"@,
        CollectPointKind::Normalized => "Normalized"@,
        CollectPointKind::NormalizedNoQuality => "NormalizedNoQuality"@,
        CollectPointKind::Float => "Float"@,
        CollectPointKind::Counter => "Counter"@,
    }
}

pub open spec fn soe_debug(soe: Option<SoeKind>) -> Seq<char> {
    match soe {
        None => "None"@,
        Some(SoeKind::Single) => "Some(Single)"@,
        Some(SoeKind::Double) => "Some(Double)"@,
    }
}

/// The type that points of a kind are reported with.
pub open spec fn report_type(kind: CollectPointKind, soe: Option<SoeKind>) -> Result<
    TypeId,
    Seq<char>,
> {
    match (kind, soe) {
        (CollectPointKind::SinglePoint, Some(SoeKind::Single)) => Ok(TypeId::M_SP_TB_1),
        (CollectPointKind::DoublePoint, Some(SoeKind::Double)) => Ok(TypeId::M_DP_TB_1),
        (CollectPointKind::SinglePoint, None) => Ok(TypeId::M_SP_NA_1),
        (CollectPointKind::DoublePoint, None) => Ok(TypeId::M_DP_NA_1),
        (CollectPointKind::Normalized, None) => Ok(TypeId::M_ME_NA_1),
        (CollectPointKind::NormalizedNoQuality, None) => Ok(TypeId::M_ME_ND_1),
        (CollectPointKind::Float, None) => Ok(TypeId::M_ME_NC_1),
        (CollectPointKind::Counter, None) => Ok(TypeId::M_IT_NA_1),
        _ => Err(
            "点类型 "@ + kind_debug(kind) + " 与 SOE 模式 "@ + soe_debug(soe) + " 不匹配"@,
        ),
    }
}

fn kind_label(kind: CollectPointKind) -> (result: &'static str)
    ensures
        result@ == kind_debug(kind),
{
    match kind {
        CollectPointKind::SinglePoint => "SinglePoint",
        CollectPointKind::DoublePoint => "DoublePoint",
        CollectPointKind::Normalized => "Normalized",
        CollectPointKind::NormalizedNoQuality => "NormalizedNoQuality",
        CollectPointKind::Float => "Float",
        CollectPointKind::Counter => "Counter",
    }
}

fn soe_label(soe: Option<SoeKind>) -> (result: &'static str)
    ensures
        result@ == soe_debug(soe),
{
    match soe {
        None => "None",
        Some(SoeKind::Single) => "Some(Single)",
        Some(SoeKind::Double) => "Some(Double)",
    }
}

pub open spec fn type_result(result: Result<TypeId, String>) -> Result<TypeId, Seq<char>> {
    match result {
        Ok(type_id) => Ok(type_id),
        Err(text) => Err(text@),
    }
}

pub fn collect_type_id(kind: CollectPointKind, soe: Option<SoeKind>) -> (result: Result<
    TypeId,
    String,
>)
    ensures
        type_result(result) == report_type(kind, soe),
{
    match (kind, soe) {
        (CollectPointKind::SinglePoint, Some(SoeKind::Single)) => Ok(TypeId::M_SP_TB_1),
        (CollectPointKind::DoublePoint, Some(SoeKind::Double)) => Ok(TypeId::M_DP_TB_1),
        (CollectPointKind::SinglePoint, None) => Ok(TypeId::M_SP_NA_1),
        (CollectPointKind::DoublePoint, None) => Ok(TypeId::M_DP_NA_1),
        (CollectPointKind::Normalized, None) => Ok(TypeId::M_ME_NA_1),
        (CollectPointKind::NormalizedNoQuality, None) => Ok(TypeId::M_ME_ND_1),
        (CollectPointKind::Float, None) => Ok(TypeId::M_ME_NC_1),
        (CollectPointKind::Counter, None) => Ok(TypeId::M_IT_NA_1),
        _ => {
            let text = cat(cat("点类型 ".to_owned(), kind_label(kind)), " 与 SOE 模式 ");
            Err(cat(cat(text, soe_label(soe)), " 不匹配"))
        },
    }
}

/// How many objects of a size fit in one unit.
pub open spec fn object_limit(size: int, sequence: bool) -> int {
    let available = MAX_ASDU_BYTES - 6 - if sequence {
        3int
    } else {
        0
    };
    let fit = available / (size + if sequence {
        0int
    } else {
        3
    });
    if fit < 1 {
        1
    } else if fit > 127 {
        127
    } else {
        fit
    }
}

pub fn frame_object_limit(type_id: TypeId, sequence: bool) -> (result: usize)
    requires
        sequence ==> iec_type_size(type_id.number()) > 0,
    ensures
        result == object_limit(iec_type_size(type_id.number()) as int, sequence),
        1 <= result <= 127,
{
    let size: usize = type_size(type_id.code());
    let header: usize = if sequence {
        9
    } else {
        6
    };
    let per_object: usize = if sequence {
        size
    } else {
        size + 3
    };
    let fit: usize = (MAX_ASDU_BYTES - header) / per_object;
    if fit < 1 {
        1
    } else if fit > 127 {
        127
    } else {
        fit
    }
}

/// Objects up to the limit fit in a unit, and one more would not, unless the
/// count itself is at its largest.
pub proof fn law_limit_is_tight(size: int, sequence: bool)
    requires
        1 <= size <= 12,
    ensures
        ({
            let limit = object_limit(size, sequence);
            let header = if sequence {
                9int
            } else {
                6
            };
            let per_object = if sequence {
                size
            } else {
                size + 3
            };
            &&& header + limit * per_object <= MAX_ASDU_BYTES
            &&& limit == 127 || header + (limit + 1) * per_object > MAX_ASDU_BYTES
            &&& 1 <= limit <= 127
        }),
{
    let header = if sequence {
        9int
    } else {
        6
    };
    let per_object = if sequence {
        size
    } else {
        size + 3
    };
    let available = MAX_ASDU_BYTES - header;
    let fit = available / per_object;
    vstd::arithmetic::div_mod::lemma_fundamental_div_mod(available, per_object);
    let rest = available % per_object;
    assert(available == per_object * fit + rest);
    assert(0 <= rest < per_object);
    assert(fit >= 1) by (nonlinear_arith)
        requires
            available == per_object * fit + rest,
            0 <= rest < per_object,
            available >= 240,
            1 <= per_object <= 15,
    ;
    let limit = object_limit(size, sequence);
    assert(limit * per_object <= per_object * fit) by (nonlinear_arith)
        requires
            limit <= fit,
            per_object > 0,
    ;
    assert((fit + 1) * per_object == per_object * fit + per_object) by (nonlinear_arith);
}

/// The points with a property, in their order.
pub open spec fn picked(
    points: Seq<PointStateView>,
    picks: spec_fn(PointStateView) -> bool,
) -> Seq<PointStateView>
    decreases points.len(),
{
    if points.len() == 0 {
        points
    } else {
        let before = picked(points.drop_last(), picks);
        if picks(points.last()) {
            before.push(points.last())
        } else {
            before
        }
    }
}

/// The points of a kind that a report covers.
pub open spec fn reports(
    kind: CollectPointKind,
    soe: Option<SoeKind>,
    group: Option<u8>,
) -> spec_fn(PointStateView) -> bool {
    |point: PointStateView|
        {
            &&& point.config.purpose.data()
            &&& point.config.kind == kind
            &&& group is None || point.config.group == group->0
            &&& soe is None || point.config.soe
        }
}

pub open spec fn individually(individual: bool) -> spec_fn(PointStateView) -> bool {
    |point: PointStateView| (point.config.addressing is Individual) == individual
}

/// Points that one unit reports.
#[derive(Debug)]
pub struct Chunk {
    pub sequence: bool,
    pub points: Vec<PointState>,
}

#[verifier::ext_equal]
pub struct ChunkView {
    pub sequence: bool,
    pub points: Seq<PointStateView>,
}

impl View for Chunk {
    type V = ChunkView;

    open spec fn view(&self) -> ChunkView {
        ChunkView { sequence: self.sequence, points: state_views(self.points@) }
    }
}

pub open spec fn chunk_views(chunks: Seq<Chunk>) -> Seq<ChunkView> {
    chunks.map_values(|chunk: Chunk| chunk@)
}

/// Points in groups of a limited size.
pub open spec fn individual_chunks(points: Seq<PointStateView>, limit: int) -> Seq<ChunkView>
    decreases points.len(),
{
    if points.len() == 0 || limit <= 0 {
        Seq::empty()
    } else if points.len() <= limit {
        seq![ChunkView { sequence: false, points }]
    } else {
        seq![ChunkView { sequence: false, points: points.take(limit) }] + individual_chunks(
            points.skip(limit),
            limit,
        )
    }
}

/// The point at a position has the next address after the one before it.
pub open spec fn follows(points: Seq<PointStateView>, index: int) -> bool {
    points[index].config.ioa == points[index - 1].config.ioa + 1
}

/// Where the points that count up from the first one end, at most at a limit.
pub open spec fn run_end(points: Seq<PointStateView>, limit: int, end: int) -> int
    decreases points.len() - end,
{
    if 0 < end < points.len() && end < limit && follows(points, end) {
        run_end(points, limit, end + 1)
    } else {
        end
    }
}

/// Points in runs that count up; a run of one has its own address.
pub open spec fn sequence_chunks(points: Seq<PointStateView>, limit: int) -> Seq<ChunkView>
    decreases points.len(),
{
    if points.len() == 0 {
        Seq::empty()
    } else {
        let end = run_end(points, limit, 1);
        if 1 <= end <= points.len() {
            seq![ChunkView { sequence: end > 1, points: points.take(end) }] + sequence_chunks(
                points.skip(end),
                limit,
            )
        } else {
            Seq::empty()
        }
    }
}

proof fn lemma_run_end(points: Seq<PointStateView>, limit: int, end: int)
    requires
        1 <= end <= points.len(),
        end <= limit || end == 1,
    ensures
        end <= run_end(points, limit, end) <= points.len(),
        run_end(points, limit, end) <= limit || run_end(points, limit, end) == 1,
        forall|i: int| end <= i < run_end(points, limit, end) ==> #[trigger] follows(points, i),
    decreases points.len() - end,
{
    if end < points.len() && end < limit && follows(points, end) {
        lemma_run_end(points, limit, end + 1);
    }
}

/// The groups of points that are reported in one unit each.
pub open spec fn addressed_chunks(points: Seq<PointStateView>, size: int) -> Seq<ChunkView> {
    individual_chunks(picked(points, individually(true)), object_limit(size, false))
        + sequence_chunks(picked(points, individually(false)), object_limit(size, true))
}

fn pick_addressing(points: &Vec<PointState>, individual: bool) -> (result: Vec<PointState>)
    ensures
        state_views(result@) == picked(state_views(points@), individually(individual)),
{
    let mut result: Vec<PointState> = Vec::new();
    let ghost views = state_views(points@);
    let mut index: usize = 0;
    assert(views.take(0) =~= Seq::<PointStateView>::empty());
    assert(state_views(result@) =~= Seq::<PointStateView>::empty());
    while index < points.len()
        invariant
            index <= points@.len(),
            views == state_views(points@),
            state_views(result@) == picked(views.take(index as int), individually(individual)),
        decreases points.len() - index,
    {
        let ghost longer = views.take(index + 1);
        assert(longer.drop_last() =~= views.take(index as int));
        assert(longer.last() == points@[index as int]@);
        let own = points[index].config.addressing == AddressingMode::Individual;
        if own == individual {
            let ghost before = result@;
            let copied = points[index].copy();
            result.push(copied);
            assert(state_views(result@) =~= state_views(before).push(points@[index as int]@));
        }
        index += 1;
    }
    assert(views.take(index as int) =~= views);
    result
}

fn copy_range(points: &Vec<PointState>, from: usize, to: usize) -> (result: Vec<PointState>)
    requires
        from <= to <= points@.len(),
    ensures
        state_views(result@) == state_views(points@).subrange(from as int, to as int),
{
    let mut result: Vec<PointState> = Vec::new();
    let mut index: usize = from;
    while index < to
        invariant
            from <= index <= to <= points@.len(),
            result@.len() == index - from,
            forall|i: int|
                0 <= i < result@.len() ==> (#[trigger] result@[i])@ == points@[from + i]@,
        decreases to - index,
    {
        result.push(points[index].copy());
        index += 1;
    }
    assert(state_views(result@) =~= state_views(points@).subrange(from as int, to as int));
    result
}

/// Puts points into the groups that are reported in one unit each. Two points
/// that may share a unit without addresses of their own need elements that take
/// room.
pub fn addressing_chunks(points: &Vec<PointState>, type_id: TypeId) -> (result: Vec<Chunk>)
    requires
        type_id.element_size() > 0 || iec_type_size(type_id.number()) > 0 || picked(
            state_views(points@),
            individually(false),
        ).len() < 2,
    ensures
        chunk_views(result@) == addressed_chunks(
            state_views(points@),
            iec_type_size(type_id.number()) as int,
        ),
        type_id !is Other ==> iec_type_size(type_id.number()) == type_id.element_size(),
{
    let mut chunks: Vec<Chunk> = Vec::new();
    let size: usize = type_size(type_id.code());
    assert(type_id !is Other ==> type_id.canonical());
    let individual = pick_addressing(points, true);
    let limit: usize = frame_object_limit(type_id, false);
    let ghost first = individual_chunks(state_views(individual@), limit as int);
    let mut start: usize = 0;
    assert(state_views(individual@).skip(0) =~= state_views(individual@));
    assert(chunk_views(chunks@) =~= Seq::<ChunkView>::empty());
    while start < individual.len()
        invariant
            start <= individual@.len(),
            1 <= limit <= 127,
            chunk_views(chunks@) + individual_chunks(
                state_views(individual@).skip(start as int),
                limit as int,
            ) == first,
        decreases individual.len() - start,
    {
        let ghost rest = state_views(individual@).skip(start as int);
        let end: usize = if individual.len() - start <= limit {
            individual.len()
        } else {
            start + limit
        };
        let chunk = Chunk { sequence: false, points: copy_range(&individual, start, end) };
        let ghost before = chunks@;
        proof {
            let taken = state_views(individual@).subrange(start as int, end as int);
            if individual@.len() - start <= limit {
                assert(taken =~= rest);
                assert(state_views(individual@).skip(end as int) =~= Seq::<
                    PointStateView,
                >::empty());
            } else {
                assert(taken =~= rest.take(limit as int));
                assert(state_views(individual@).skip(end as int) =~= rest.skip(limit as int));
            }
            assert(chunk_views(before.push(chunk)) =~= chunk_views(before).push(chunk@));
            assert(chunk_views(before.push(chunk)) + individual_chunks(
                state_views(individual@).skip(end as int),
                limit as int,
            ) =~= first);
        }
        chunks.push(chunk);
        start = end;
    }
    assert(state_views(individual@).skip(start as int) =~= Seq::<PointStateView>::empty());
    assert(chunk_views(chunks@) =~= first);
    let sequential = pick_addressing(points, false);
    let limit: usize = if size > 0 {
        frame_object_limit(type_id, true)
    } else {
        1
    };
    let ghost second = sequence_chunks(state_views(sequential@), limit as int);
    proof {
        let views = state_views(sequential@);
        if size == 0 && views.len() == 1 {
            assert(sequence_chunks(views.skip(1), limit as int) =~= sequence_chunks(
                views.skip(1),
                object_limit(size as int, true),
            ));
        }
        assert(second == sequence_chunks(views, object_limit(size as int, true)));
    }
    let mut start: usize = 0;
    assert(state_views(sequential@).skip(0) =~= state_views(sequential@));
    while start < sequential.len()
        invariant
            start <= sequential@.len(),
            1 <= limit <= 127,
            chunk_views(chunks@) + sequence_chunks(
                state_views(sequential@).skip(start as int),
                limit as int,
            ) == first + second,
        decreases sequential.len() - start,
    {
        let ghost rest = state_views(sequential@).skip(start as int);
        let mut end: usize = start + 1;
        while end < sequential.len() && end - start < limit && sequential[end].config.ioa as u64
            == sequential[end - 1].config.ioa as u64 + 1
            invariant
                start < end <= sequential@.len(),
                rest == state_views(sequential@).skip(start as int),
                run_end(rest, limit as int, end - start) == run_end(rest, limit as int, 1),
            ensures
                start < end <= sequential@.len(),
                end - start == run_end(rest, limit as int, 1),
            decreases sequential.len() - end,
        {
            assert(rest[end - start] == sequential@[end as int]@);
            assert(rest[end - start - 1] == sequential@[end - 1]@);
            end += 1;
        }
        let chunk = Chunk {
            sequence: end - start > 1,
            points: copy_range(&sequential, start, end),
        };
        let ghost before = chunks@;
        proof {
            let taken = state_views(sequential@).subrange(start as int, end as int);
            assert(taken =~= rest.take(end - start));
            assert(state_views(sequential@).skip(end as int) =~= rest.skip(end - start));
            assert(chunk_views(before.push(chunk)) =~= chunk_views(before).push(chunk@));
            assert(chunk_views(before.push(chunk)) + sequence_chunks(
                state_views(sequential@).skip(end as int),
                limit as int,
            ) =~= first + second);
        }
        chunks.push(chunk);
        start = end;
    }
    assert(state_views(sequential@).skip(start as int) =~= Seq::<PointStateView>::empty());
    assert(chunk_views(chunks@) =~= first + second);
    chunks
}

/// The quality that a point reports.
pub open spec fn point_qds(quality: Seq<char>) -> Qds {
    Qds {
        iv: quality == "invalid"@,
        nt: false,
        sb: quality == "substituted"@,
        bl: quality == "blocked"@,
        ov: false,
    }
}

fn make_qds(quality: &str) -> (result: Qds)
    ensures
        result == point_qds(quality@),
{
    Qds {
        iv: same_text(quality, "invalid"),
        nt: false,
        sb: same_text(quality, "substituted"),
        bl: same_text(quality, "blocked"),
        ov: false,
    }
}

pub open spec fn point_siq(point: PointStateView) -> Siq {
    let qds = point_qds(point.config.quality);
    Siq {
        iv: qds.iv,
        nt: qds.nt,
        sb: qds.sb,
        bl: qds.bl,
        spi: if point.off() {
            Spi::Off
        } else {
            Spi::On
        },
    }
}

fn make_siq(point: &PointState) -> (result: Siq)
    ensures
        result == point_siq(point@),
{
    let qds = make_qds(point.config.quality.as_str());
    Siq {
        iv: qds.iv,
        nt: qds.nt,
        sb: qds.sb,
        bl: qds.bl,
        spi: if point.value.value.is_integer(0) {
            Spi::Off
        } else {
            Spi::On
        },
    }
}

pub open spec fn point_diq(point: PointStateView) -> Diq {
    let qds = point_qds(point.config.quality);
    Diq {
        iv: qds.iv,
        nt: qds.nt,
        sb: qds.sb,
        bl: qds.bl,
        dpi: if point.off() {
            Dpi::Off
        } else {
            Dpi::On
        },
    }
}

fn make_diq(point: &PointState) -> (result: Diq)
    ensures
        result == point_diq(point@),
{
    let qds = make_qds(point.config.quality.as_str());
    Diq {
        iv: qds.iv,
        nt: qds.nt,
        sb: qds.sb,
        bl: qds.bl,
        dpi: if point.value.value.is_integer(0) {
            Dpi::Off
        } else {
            Dpi::On
        },
    }
}

/// The element that reports a point; the time only where changes are reported
/// with one.
pub open spec fn point_element(
    kind: CollectPointKind,
    point: PointStateView,
    time: Option<Cp56Time2a>,
) -> Element {
    match kind {
        CollectPointKind::SinglePoint => match time {
            Some(time) => Element::SinglePointTime { siq: point_siq(point), time },
            None => Element::SinglePoint { siq: point_siq(point) },
        },
        CollectPointKind::DoublePoint => match time {
            Some(time) => Element::DoublePointTime { diq: point_diq(point), time },
            None => Element::DoublePoint { diq: point_diq(point) },
        },
        CollectPointKind::Normalized => Element::Normalized {
            nva: point.value.value.saturated(-32768, 32767) as i16,
            qds: point_qds(point.config.quality),
        },
        CollectPointKind::NormalizedNoQuality => Element::NormalizedNoQuality {
            nva: point.value.value.saturated(-32768, 32767) as i16,
        },
        CollectPointKind::Float => Element::ShortFloat {
            bits: point.value.value.single,
            qds: point_qds(point.config.quality),
        },
        CollectPointKind::Counter => Element::Counter {
            bcr: point.value.value.saturated(i32::MIN as int, i32::MAX as int) as i32,
            sqd: SeqQd {
                iv: point.config.quality == "invalid"@,
                ca: point.config.quality == "substituted"@,
                cy: false,
                seq: point.counter_sequence,
            },
        },
    }
}

fn make_element(kind: CollectPointKind, point: &PointState, time: Option<Cp56Time2a>) -> (result:
    Element)
    ensures
        result == point_element(kind, point@, time),
{
    match kind {
        CollectPointKind::SinglePoint => match time {
            Some(time) => Element::SinglePointTime { siq: make_siq(point), time },
            None => Element::SinglePoint { siq: make_siq(point) },
        },
        CollectPointKind::DoublePoint => match time {
            Some(time) => Element::DoublePointTime { diq: make_diq(point), time },
            None => Element::DoublePoint { diq: make_diq(point) },
        },
        CollectPointKind::Normalized => Element::Normalized {
            nva: point.value.value.saturating_i16(),
            qds: make_qds(point.config.quality.as_str()),
        },
        CollectPointKind::NormalizedNoQuality => Element::NormalizedNoQuality {
            nva: point.value.value.saturating_i16(),
        },
        CollectPointKind::Float => Element::ShortFloat {
            bits: point.value.value.single,
            qds: make_qds(point.config.quality.as_str()),
        },
        CollectPointKind::Counter => Element::Counter {
            bcr: point.value.value.saturating_i32(),
            sqd: SeqQd {
                iv: same_text(point.config.quality.as_str(), "invalid"),
                ca: same_text(point.config.quality.as_str(), "substituted"),
                cy: false,
                seq: point.counter_sequence,
            },
        },
    }
}

/// The objects that report points.
pub open spec fn point_objects(
    kind: CollectPointKind,
    points: Seq<PointStateView>,
    time: Option<Cp56Time2a>,
) -> Seq<InformationObject> {
    points.map_values(
        |point: PointStateView|
            InformationObject {
                address: point.config.ioa,
                element: point_element(kind, point, time),
            },
    )
}

/// The header fields that all units of a report share.
#[derive(Debug, Clone, Copy, PartialEq, Eq, Structural)]
pub struct ReportHeader {
    pub cot: u8,
    pub common_address: u16,
    pub originator_address: u8,
    pub test: bool,
}

/// The unit that reports one group of points.
pub open spec fn chunk_unit(
    kind: CollectPointKind,
    type_id: TypeId,
    chunk: ChunkView,
    header: ReportHeader,
    time: Option<Cp56Time2a>,
) -> AsduView {
    AsduView {
        type_id,
        cot: header.cot,
        originator_address: header.originator_address,
        address_field: header.common_address,
        sequence: chunk.sequence,
        test: header.test,
        negative: false,
        objects: ObjectsView::Known(point_objects(kind, chunk.points, time)),
    }
}

fn point_asdu(
    kind: CollectPointKind,
    type_id: TypeId,
    chunk: &Chunk,
    header: ReportHeader,
    time: Option<Cp56Time2a>,
) -> (result: Asdu)
    ensures
        result@ == chunk_unit(kind, type_id, chunk@, header, time),
{
    let mut objects: Vec<InformationObject> = Vec::new();
    let mut index: usize = 0;
    while index < chunk.points.len()
        invariant
            index <= chunk.points@.len(),
            objects@.len() == index,
            forall|i: int|
                0 <= i < index ==> (#[trigger] objects@[i]) == (InformationObject {
                    address: chunk.points@[i]@.config.ioa,
                    element: point_element(kind, chunk.points@[i]@, time),
                }),
        decreases chunk.points.len() - index,
    {
        let point = &chunk.points[index];
        objects.push(
            InformationObject {
                address: point.config.ioa,
                element: make_element(kind, point, time),
            },
        );
        index += 1;
    }
    assert(objects@ =~= point_objects(kind, chunk@.points, time));
    Asdu {
        type_id,
        cot: header.cot,
        originator_address: header.originator_address,
        address_field: header.common_address,
        sequence: chunk.sequence,
        test: header.test,
        negative: false,
        information_objects: InformationObjects::Known(objects),
    }
}

pub open spec fn unit_views(units: Seq<Asdu>) -> Seq<AsduView> {
    units.map_values(|unit: Asdu| unit@)
}

pub open spec fn units_result(result: Result<Vec<Asdu>, String>) -> Result<
    Seq<AsduView>,
    Seq<char>,
> {
    match result {
        Ok(units) => Ok(unit_views(units@)),
        Err(text) => Err(text@),
    }
}

/// The groups of the points of a kind.
pub open spec fn kind_chunks(
    points: Seq<PointStateView>,
    kind: CollectPointKind,
    soe: Option<SoeKind>,
    group: Option<u8>,
) -> Seq<ChunkView> {
    addressed_chunks(
        sorted_by(picked(points, reports(kind, soe, group)), by_address()),
        report_type(kind, soe)->Ok_0.element_size() as int,
    )
}

/// The units that report the points of a kind without a time.
pub open spec fn plain_units(
    points: Seq<PointStateView>,
    kind: CollectPointKind,
    group: Option<u8>,
    header: ReportHeader,
) -> Seq<AsduView> {
    kind_chunks(points, kind, None, group).map_values(
        |chunk: ChunkView|
            chunk_unit(kind, report_type(kind, None)->Ok_0, chunk, header, None),
    )
}

/// The units that report changes with a time of the moment, or why the moment
/// has no time tag.
pub open spec fn timed_units(
    points: Seq<PointStateView>,
    kind: CollectPointKind,
    soe: Option<SoeKind>,
    group: Option<u8>,
    header: ReportHeader,
    outcome: Result<Seq<AsduView>, Seq<char>>,
) -> bool {
    let chunks = kind_chunks(points, kind, soe, group);
    match outcome {
        Ok(units) => units.len() == chunks.len() && forall|i: int|
            0 <= i < units.len() ==> timed_unit(
                kind,
                report_type(kind, soe)->Ok_0,
                chunks[i],
                header,
                #[trigger] units[i],
            ),
        Err(text) => chunks.len() > 0 && crate::protocol::asdu::local_tag(Err(text)),
    }
}

/// A unit that reports changes with the time tag of a moment.
pub open spec fn timed_unit(
    kind: CollectPointKind,
    type_id: TypeId,
    chunk: ChunkView,
    header: ReportHeader,
    unit: AsduView,
) -> bool {
    exists|time: Cp56Time2a|
        time.valid() && crate::protocol::asdu::local_tag(Ok(time)) && unit == #[trigger] chunk_unit(kind, type_id, chunk, header, Some(time))
}

/// The units that report the points of a kind.
pub open spec fn kind_units(
    points: Seq<PointStateView>,
    kind: CollectPointKind,
    soe: Option<SoeKind>,
    group: Option<u8>,
    header: ReportHeader,
    outcome: Result<Seq<AsduView>, Seq<char>>,
) -> bool {
    match report_type(kind, soe) {
        Err(text) => outcome == Err::<Seq<AsduView>, Seq<char>>(text),
        Ok(_) => if soe is None {
            outcome == Ok::<Seq<AsduView>, Seq<char>>(plain_units(points, kind, group, header))
        } else {
            timed_units(points, kind, soe, group, header, outcome)
        },
    }
}

impl Station {
    fn pick_reported(
        &self,
        kind: CollectPointKind,
        soe: Option<SoeKind>,
        group: Option<u8>,
    ) -> (result: Vec<PointState>)
        ensures
            state_views(result@) == picked(self@, reports(kind, soe, group)),
    {
        let mut result: Vec<PointState> = Vec::new();
        let mut index: usize = 0;
        assert(self@.take(0) =~= Seq::<PointStateView>::empty());
        assert(state_views(result@) =~= Seq::<PointStateView>::empty());
        while index < self.points.len()
            invariant
                index <= self.points@.len(),
                state_views(result@) == picked(
                    self@.take(index as int),
                    reports(kind, soe, group),
                ),
            decreases self.points.len() - index,
        {
            let ghost longer = self@.take(index + 1);
            assert(longer.drop_last() =~= self@.take(index as int));
            assert(longer.last() == self.points@[index as int]@);
            let point = &self.points[index];
            let in_group = match group {
                Some(group) => point.config.group == group,
                None => true,
            };
            let with_time = soe.is_none() || point.config.soe;
            if point.config.purpose.includes_data() && point.config.kind == kind && in_group
                && with_time {
                let ghost before = result@;
                let copied = point.copy();
                result.push(copied);
                assert(state_views(result@) =~= state_views(before).push(
                    self.points@[index as int]@,
                ));
            }
            index += 1;
        }
        assert(self@.take(index as int) =~= self@);
        result
    }

    /// The units that report the points of a kind.
    pub fn frames_for_kind(
        &self,
        kind: CollectPointKind,
        soe: Option<SoeKind>,
        header: ReportHeader,
        group: Option<u8>,
    ) -> (result: Result<Vec<Asdu>, String>)
        ensures
            kind_units(self@, kind, soe, group, header, units_result(result)),
    {
        let unsorted = self.pick_reported(kind, soe, group);
        proof {
            let view = |point: PointState| point@;
            lemma_sorting_views(
                unsorted@,
                order_of::<PointState, PointsByAddress>(&PointsByAddress),
                view,
                by_address(),
            );
            assert(state_views(unsorted@) =~= unsorted@.map_values(view));
        }
        let points = stable_sort(unsorted, &PointsByAddress);
        assert(state_views(points@) =~= points@.map_values(|point: PointState| point@));
        let type_id = match collect_type_id(kind, soe) {
            Ok(type_id) => type_id,
            Err(text) => {
                return Err(text);
            },
        };
        let chunks = addressing_chunks(&points, type_id);
        let ghost views = kind_chunks(self@, kind, soe, group);
        assert(chunk_views(chunks@) == views);
        assert(chunks@.len() == views.len());
        let mut units: Vec<Asdu> = Vec::new();
        let mut index: usize = 0;
        while index < chunks.len()
            invariant
                index <= chunks@.len(),
                chunks@.len() == views.len(),
                units@.len() == index,
                chunk_views(chunks@) == views,
                views == kind_chunks(self@, kind, soe, group),
                report_type(kind, soe) == Ok::<TypeId, Seq<char>>(type_id),
                forall|i: int|
                    0 <= i < index ==> if soe is None {
                        (#[trigger] units@[i])@ == chunk_unit(
                            kind,
                            type_id,
                            views[i],
                            header,
                            None,
                        )
                    } else {
                        timed_unit(kind, type_id, views[i], header, units@[i]@)
                    },
            decreases chunks.len() - index,
        {
            assert(chunks@[index as int]@ == views[index as int]);
            let time = if soe.is_some() {
                match current_cp56_time() {
                    Ok(time) => Some(time),
                    Err(text) => {
                        return Err(text);
                    },
                }
            } else {
                None
            };
            let unit = point_asdu(kind, type_id, &chunks[index], header, time);
            assert(unit@ == chunk_unit(kind, type_id, views[index as int], header, time));
            units.push(unit);
            index += 1;
        }
        proof {
            if soe is None {
                assert(unit_views(units@) =~= plain_units(self@, kind, group, header));
            }
        }
        Ok(units)
    }
}

/// The kinds in the order in which they are reported.
pub open spec fn kind_order() -> Seq<CollectPointKind> {
    seq![
        CollectPointKind::SinglePoint,
        CollectPointKind::DoublePoint,
        CollectPointKind::Normalized,
        CollectPointKind::NormalizedNoQuality,
        CollectPointKind::Float,
        CollectPointKind::Counter,
    ]
}

pub fn all_collect_kinds() -> (result: Vec<CollectPointKind>)
    ensures
        result@ == kind_order(),
{
    let kinds: Vec<CollectPointKind> = vec![
        CollectPointKind::SinglePoint,
        CollectPointKind::DoublePoint,
        CollectPointKind::Normalized,
        CollectPointKind::NormalizedNoQuality,
        CollectPointKind::Float,
        CollectPointKind::Counter,
    ];
    assert(kinds@ =~= kind_order());
    kinds
}

/// The units that report the points of several kinds, kind by kind.
pub open spec fn kinds_units(
    points: Seq<PointStateView>,
    kinds: Seq<CollectPointKind>,
    group: Option<u8>,
    header: ReportHeader,
) -> Seq<AsduView>
    decreases kinds.len(),
{
    if kinds.len() == 0 {
        Seq::empty()
    } else {
        kinds_units(points, kinds.drop_last(), group, header) + plain_units(
            points,
            kinds.last(),
            group,
            header,
        )
    }
}

/// The units of a general interrogation: every kind but the counters.
pub open spec fn general_units(
    points: Seq<PointStateView>,
    group: Option<u8>,
    header: ReportHeader,
) -> Seq<AsduView> {
    kinds_units(points, kind_order().take(5), group, header)
}

pub open spec fn spontaneous_header(common_address: u16, originator_address: u8) -> ReportHeader {
    ReportHeader { cot: COT_SPONTANEOUS, common_address, originator_address, test: false }
}

pub open spec fn reported_kind(upload: UploadKind) -> Option<CollectPointKind> {
    match upload {
        UploadKind::SinglePoint => Some(CollectPointKind::SinglePoint),
        UploadKind::DoublePoint => Some(CollectPointKind::DoublePoint),
        UploadKind::Normalized => Some(CollectPointKind::Normalized),
        UploadKind::NormalizedNoQuality => Some(CollectPointKind::NormalizedNoQuality),
        UploadKind::Float => Some(CollectPointKind::Float),
        UploadKind::Counter => Some(CollectPointKind::Counter),
        _ => None,
    }
}

pub fn upload_kind(upload: UploadKind) -> (result: Option<CollectPointKind>)
    ensures
        result == reported_kind(upload),
{
    match upload {
        UploadKind::SinglePoint => Some(CollectPointKind::SinglePoint),
        UploadKind::DoublePoint => Some(CollectPointKind::DoublePoint),
        UploadKind::Normalized => Some(CollectPointKind::Normalized),
        UploadKind::NormalizedNoQuality => Some(CollectPointKind::NormalizedNoQuality),
        UploadKind::Float => Some(CollectPointKind::Float),
        UploadKind::Counter => Some(CollectPointKind::Counter),
        _ => None,
    }
}

/// The units of a spontaneous report.
pub open spec fn upload_units(
    points: Seq<PointStateView>,
    upload: UploadKind,
    header: ReportHeader,
    outcome: Result<Seq<AsduView>, Seq<char>>,
) -> bool {
    match upload {
        UploadKind::CurrentValues | UploadKind::RefreshAll => outcome == Ok::<
            Seq<AsduView>,
            Seq<char>,
        >(kinds_units(points, kind_order(), None, header)),
        UploadKind::SingleSoe => kind_units(
            points,
            CollectPointKind::SinglePoint,
            Some(SoeKind::Single),
            None,
            header,
            outcome,
        ),
        UploadKind::DoubleSoe => kind_units(
            points,
            CollectPointKind::DoublePoint,
            Some(SoeKind::Double),
            None,
            header,
            outcome,
        ),
        UploadKind::InitializationEnd => outcome == Err::<Seq<AsduView>, Seq<char>>(
            "不支持的主动上送类型: InitializationEnd"@,
        ),
        _ => outcome == Ok::<Seq<AsduView>, Seq<char>>(
            plain_units(points, reported_kind(upload)->0, None, header),
        ),
    }
}

impl Station {
    fn frames_of_kinds(
        &self,
        kinds: &Vec<CollectPointKind>,
        count: usize,
        header: ReportHeader,
        group: Option<u8>,
    ) -> (result: Result<Vec<Asdu>, String>)
        requires
            count <= kinds@.len(),
        ensures
            units_result(result) == Ok::<Seq<AsduView>, Seq<char>>(
                kinds_units(self@, kinds@.take(count as int), group, header),
            ),
    {
        let mut units: Vec<Asdu> = Vec::new();
        let mut index: usize = 0;
        assert(unit_views(units@) =~= Seq::<AsduView>::empty());
        assert(kinds@.take(0) =~= Seq::<CollectPointKind>::empty());
        while index < count
            invariant
                index <= count <= kinds@.len(),
                unit_views(units@) == kinds_units(
                    self@,
                    kinds@.take(index as int),
                    group,
                    header,
                ),
            decreases count - index,
        {
            let ghost longer = kinds@.take(index + 1);
            assert(longer.drop_last() =~= kinds@.take(index as int));
            assert(longer.last() == kinds@[index as int]);
            match self.frames_for_kind(kinds[index], None, header, group) {
                Ok(more) => {
                    let mut more = more;
                    let ghost before = unit_views(units@);
                    let ghost added = unit_views(more@);
                    units.append(&mut more);
                    assert(unit_views(units@) =~= before + added);
                },
                Err(text) => {
                    assert(false);
                    return Err(text);
                },
            }
            index += 1;
        }
        Ok(units)
    }

    /// The units of a spontaneous report.
    pub fn frames_for_upload(
        &self,
        upload: UploadKind,
        common_address: u16,
        originator_address: u8,
    ) -> (result: Result<Vec<Asdu>, String>)
        ensures
            upload_units(
                self@,
                upload,
                spontaneous_header(common_address, originator_address),
                units_result(result),
            ),
    {
        let header = ReportHeader {
            cot: COT_SPONTANEOUS,
            common_address,
            originator_address,
            test: false,
        };
        match upload {
            UploadKind::CurrentValues | UploadKind::RefreshAll => {
                let kinds = all_collect_kinds();
                assert(kinds@.take(6) =~= kind_order());
                self.frames_of_kinds(&kinds, 6, header, None)
            },
            UploadKind::SingleSoe => self.frames_for_kind(
                CollectPointKind::SinglePoint,
                Some(SoeKind::Single),
                header,
                None,
            ),
            UploadKind::DoubleSoe => self.frames_for_kind(
                CollectPointKind::DoublePoint,
                Some(SoeKind::Double),
                header,
                None,
            ),
            _ => match upload_kind(upload) {
                Some(kind) => self.frames_for_kind(kind, None, header, None),
                None => {
                    Err("不支持的主动上送类型: InitializationEnd".to_owned())
                },
            },
        }
    }

    /// The units that answer a general interrogation of a group, or of all.
    pub fn general_frames(&self, group: Option<u8>, header: ReportHeader) -> (result: Result<
        Vec<Asdu>,
        String,
    >)
        ensures
            units_result(result) == Ok::<Seq<AsduView>, Seq<char>>(
                general_units(self@, group, header),
            ),
    {
        let kinds = all_collect_kinds();
        self.frames_of_kinds(&kinds, 5, header, group)
    }

    /// The units that answer a counter interrogation of a group, or of all.
    pub fn counter_frames(&self, group: Option<u8>, header: ReportHeader) -> (result: Result<
        Vec<Asdu>,
        String,
    >)
        ensures
            units_result(result) == Ok::<Seq<AsduView>, Seq<char>>(
                plain_units(self@, CollectPointKind::Counter, group, header),
            ),
    {
        self.frames_for_kind(CollectPointKind::Counter, None, header, group)
    }
}

// ---------------------------------------------------------------------------
// Laws of reporting.
/// The points of all groups, in their order.
pub open spec fn chunked_points(chunks: Seq<ChunkView>) -> Seq<PointStateView>
    decreases chunks.len(),
{
    if chunks.len() == 0 {
        Seq::empty()
    } else {
        chunks[0].points + chunked_points(chunks.skip(1))
    }
}

/// A group is no larger than fits in a unit, and one that is reported with one
/// address counts up by one.
pub open spec fn well_chunked(chunk: ChunkView, size: int) -> bool {
    &&& 1 <= chunk.points.len() <= object_limit(size, chunk.sequence)
    &&& chunk.sequence ==> forall|i: int|
        0 <= i < chunk.points.len() ==> (#[trigger] chunk.points[i]).config.ioa
            == chunk.points[0].config.ioa + i
}

proof fn lemma_individual_chunks(points: Seq<PointStateView>, size: int)
    requires
        1 <= size <= 12,
    ensures
        ({
            let chunks = individual_chunks(points, object_limit(size, false));
            &&& chunked_points(chunks) == points
            &&& forall|i: int| 0 <= i < chunks.len() ==> well_chunked(#[trigger] chunks[i], size)
        }),
    decreases points.len(),
{
    let limit = object_limit(size, false);
    law_limit_is_tight(size, false);
    let chunks = individual_chunks(points, limit);
    if points.len() == 0 {
        assert(chunked_points(chunks) =~= points);
    } else if points.len() <= limit {
        assert(chunks.skip(1) =~= Seq::<ChunkView>::empty());
        assert(chunked_points(chunks.skip(1)) =~= Seq::<PointStateView>::empty());
        assert(chunked_points(chunks) =~= points);
    } else {
        let rest = individual_chunks(points.skip(limit), limit);
        lemma_individual_chunks(points.skip(limit), size);
        assert(chunks.skip(1) =~= rest);
        assert(chunked_points(chunks) =~= points);
        assert forall|i: int| 0 <= i < chunks.len() implies well_chunked(
            #[trigger] chunks[i],
            size,
        ) by {
            if i > 0 {
                assert(chunks[i] == rest[i - 1]);
            }
        }
    }
}

proof fn lemma_run_counts_up(points: Seq<PointStateView>, end: int, index: int)
    requires
        0 <= index < end <= points.len(),
        forall|i: int| 1 <= i < end ==> #[trigger] follows(points, i),
    ensures
        points[index].config.ioa == points[0].config.ioa + index,
    decreases index,
{
    if index > 0 {
        assert(follows(points, index));
        lemma_run_counts_up(points, end, index - 1);
    }
}

proof fn lemma_sequence_chunks(points: Seq<PointStateView>, size: int)
    requires
        1 <= size <= 12,
    ensures
        ({
            let chunks = sequence_chunks(points, object_limit(size, true));
            &&& chunked_points(chunks) == points
            &&& forall|i: int| 0 <= i < chunks.len() ==> well_chunked(#[trigger] chunks[i], size)
        }),
    decreases points.len(),
{
    let limit = object_limit(size, true);
    law_limit_is_tight(size, true);
    law_limit_is_tight(size, false);
    let chunks = sequence_chunks(points, limit);
    if points.len() == 0 {
        assert(chunked_points(chunks) =~= points);
    } else {
        let end = run_end(points, limit, 1);
        lemma_run_end(points, limit, 1);
        let rest = sequence_chunks(points.skip(end), limit);
        lemma_sequence_chunks(points.skip(end), size);
        assert(chunks.skip(1) =~= rest);
        assert(chunked_points(chunks) =~= points);
        assert(well_chunked(chunks[0], size)) by {
            let first = chunks[0];
            assert forall|i: int| 0 <= i < first.points.len() implies (
            #[trigger] first.points[i]).config.ioa == first.points[0].config.ioa + i by {
                lemma_run_counts_up(points, end, i);
            }
        }
        assert forall|i: int| 0 <= i < chunks.len() implies well_chunked(
            #[trigger] chunks[i],
            size,
        ) by {
            if i > 0 {
                assert(chunks[i] == rest[i - 1]);
            }
        }
    }
}

proof fn lemma_chunked_points_join(left: Seq<ChunkView>, right: Seq<ChunkView>)
    ensures
        chunked_points(left + right) == chunked_points(left) + chunked_points(right),
    decreases left.len(),
{
    if left.len() == 0 {
        assert(left + right =~= right);
        assert(chunked_points(left) + chunked_points(right) =~= chunked_points(right));
    } else {
        lemma_chunked_points_join(left.skip(1), right);
        assert((left + right).skip(1) =~= left.skip(1) + right);
        assert(chunked_points(left + right) =~= chunked_points(left) + chunked_points(right));
    }
}

/// Every point is reported in exactly one unit, in the order of the points with
/// individual addresses and then of the others; no unit holds more than fits,
/// and points reported with one address count up by one.
pub proof fn law_every_point_is_reported_once(points: Seq<PointStateView>, size: int)
    requires
        1 <= size <= 12,
    ensures
        chunked_points(addressed_chunks(points, size)) == picked(points, individually(true))
            + picked(points, individually(false)),
        picked(points, individually(true)).len() + picked(points, individually(false)).len()
            == points.len(),
        forall|i: int|
            0 <= i < addressed_chunks(points, size).len() ==> well_chunked(
                #[trigger] addressed_chunks(points, size)[i],
                size,
            ),
{
    let own = picked(points, individually(true));
    let shared = picked(points, individually(false));
    lemma_individual_chunks(own, size);
    lemma_sequence_chunks(shared, size);
    let first = individual_chunks(own, object_limit(size, false));
    let second = sequence_chunks(shared, object_limit(size, true));
    lemma_chunked_points_join(first, second);
    lemma_picked_complement(points);
    let all = addressed_chunks(points, size);
    assert forall|i: int| 0 <= i < all.len() implies well_chunked(#[trigger] all[i], size) by {
        if i < first.len() {
            assert(all[i] == first[i]);
        } else {
            assert(all[i] == second[i - first.len()]);
        }
    }
}

proof fn lemma_picked_complement(points: Seq<PointStateView>)
    ensures
        picked(points, individually(true)).len() + picked(points, individually(false)).len()
            == points.len(),
    decreases points.len(),
{
    if points.len() > 0 {
        lemma_picked_complement(points.drop_last());
    }
}

proof fn lemma_elements_length(type_id: TypeId, objects: Seq<InformationObject>)
    requires
        objects_valid(type_id, objects),
    ensures
        elements_octets(objects).len() == objects.len() * type_id.element_size(),
    decreases objects.len(),
{
    let size = type_id.element_size() as int;
    if objects.len() > 0 {
        let before = objects.drop_last();
        assert(objects_valid(type_id, before)) by {
            assert forall|i: int| 0 <= i < before.len() implies (#[trigger] before[i]).valid()
                && before[i].element.kind() == type_id by {
                assert(before[i] == objects[i]);
            }
        }
        lemma_elements_length(type_id, before);
        assert(objects.last().valid() && objects.last().element.kind() == type_id);
        crate::protocol::codec::law_element_survives_the_wire(objects.last().element);
        assert(objects.len() * size == before.len() * size + size) by (nonlinear_arith)
            requires
                objects.len() == before.len() + 1,
        ;
    } else {
        assert(objects.len() * size == 0) by (nonlinear_arith)
            requires
                objects.len() == 0,
        ;
    }
}

proof fn lemma_point_objects_valid(
    kind: CollectPointKind,
    soe: Option<SoeKind>,
    points: Seq<PointStateView>,
    time: Option<Cp56Time2a>,
)
    requires
        report_type(kind, soe) is Ok,
        time is Some == soe is Some,
        time matches Some(time) ==> time.valid(),
        forall|i: int|
            0 <= i < points.len() ==> (#[trigger] points[i]).config.ioa <= 0xFF_FFFF
                && points[i].counter_sequence < 32,
    ensures
        objects_valid(report_type(kind, soe)->Ok_0, point_objects(kind, points, time)),
{
    let type_id = report_type(kind, soe)->Ok_0;
    let objects = point_objects(kind, points, time);
    assert forall|i: int| 0 <= i < objects.len() implies (#[trigger] objects[i]).valid()
        && objects[i].element.kind() == type_id by {
        let point = points[i];
        assert(point.config.ioa <= 0xFF_FFFF);
    }
}

proof fn lemma_report_length(
    type_id: TypeId,
    unit: AsduView,
    objects: Seq<InformationObject>,
)
    requires
        objects_valid(type_id, objects),
        1 <= type_id.element_size() <= 12,
        1 <= objects.len() <= object_limit(type_id.element_size() as int, unit.sequence),
    ensures
        known_octets(unit, objects).len() <= MAX_ASDU_BYTES,
{
    let size = type_id.element_size() as int;
    let count = objects.len() as int;
    let limit = object_limit(size, unit.sequence);
    law_limit_is_tight(size, unit.sequence);
    crate::protocol::codec::law_objects_survive_the_wire(type_id, objects);
    lemma_elements_length(type_id, objects);
    assert(count * size <= limit * size) by (nonlinear_arith)
        requires
            count <= limit,
            size >= 0,
    ;
    assert(count * (3 + size) <= limit * (3 + size)) by (nonlinear_arith)
        requires
            count <= limit,
            size >= 0,
    ;
    if unit.sequence && count <= 1 {
        assert(count * (3 + size) == 3 + size) by (nonlinear_arith)
            requires
                count == 1,
        ;
    }
}

/// The unit of a group of points fits in a frame, and the other end reads it
/// back as it was.
#[verifier::spinoff_prover]
pub proof fn law_reports_can_be_exchanged(
    kind: CollectPointKind,
    soe: Option<SoeKind>,
    chunk: ChunkView,
    header: ReportHeader,
    time: Option<Cp56Time2a>,
    send: u16,
    receive: u16,
)
    requires
        report_type(kind, soe) is Ok,
        time is Some == soe is Some,
        time matches Some(time) ==> time.valid(),
        well_chunked(chunk, report_type(kind, soe)->Ok_0.element_size() as int),
        forall|i: int|
            0 <= i < chunk.points.len() ==> (#[trigger] chunk.points[i]).config.ioa <= 0xFF_FFFF
                && chunk.points[i].counter_sequence < 32,
        header.cot < 64,
        send < SEQUENCE_MODULUS,
        receive < SEQUENCE_MODULUS,
    ensures
        exchangeable(
            send,
            receive,
            chunk_unit(kind, report_type(kind, soe)->Ok_0, chunk, header, time),
            point_objects(kind, chunk.points, time),
        ),
{
    let type_id = report_type(kind, soe)->Ok_0;
    let unit = chunk_unit(kind, type_id, chunk, header, time);
    let objects = point_objects(kind, chunk.points, time);
    lemma_point_objects_valid(kind, soe, chunk.points, time);
    if chunk.sequence {
        assert forall|i: int| 0 <= i < objects.len() implies (#[trigger] objects[i]).address
            == objects[0].address + i by {
            assert(chunk.points[i].config.ioa == chunk.points[0].config.ioa + i);
        }
        assert(consecutive(objects));
    }
    law_limit_is_tight(type_id.element_size() as int, chunk.sequence);
    lemma_report_length(type_id, unit, objects);
}

// ---------------------------------------------------------------------------
// Laws of what a report says.
/// The flags say what the quality of a point says, and nothing else.
pub open spec fn flags_say(quality: Seq<char>, iv: bool, nt: bool, sb: bool, bl: bool) -> bool {
    &&& iv == (quality == "invalid"@)
    &&& sb == (quality == "substituted"@)
    &&& bl == (quality == "blocked"@)
    &&& !nt
}

/// The tag is a time of the machine's zone.
pub open spec fn tags_a_moment(time: Cp56Time2a) -> bool {
    time.valid() && crate::protocol::asdu::local_tag(Ok(time))
}

/// The object says what the point is at present: a state is on where the value
/// is one and off where it is zero, an integer is the value itself, and a float
/// has its bits.
pub open spec fn carries(point: PointStateView, object: InformationObject, timed: bool) -> bool {
    let value = point.value.value;
    let quality = point.config.quality;
    &&& object.address == point.config.ioa
    &&& match (point.config.kind, object.element) {
        (CollectPointKind::SinglePoint, Element::SinglePoint { siq }) => {
            &&& !timed
            &&& value.equals_integer(0) ==> siq.spi is Off
            &&& value.equals_integer(1) ==> siq.spi is On
            &&& !value.equals_integer(0) ==> siq.spi is On
            &&& flags_say(quality, siq.iv, siq.nt, siq.sb, siq.bl)
        },
        (CollectPointKind::SinglePoint, Element::SinglePointTime { siq, time }) => {
            &&& timed
            &&& tags_a_moment(time)
            &&& value.equals_integer(0) ==> siq.spi is Off
            &&& value.equals_integer(1) ==> siq.spi is On
            &&& !value.equals_integer(0) ==> siq.spi is On
            &&& flags_say(quality, siq.iv, siq.nt, siq.sb, siq.bl)
        },
        (CollectPointKind::DoublePoint, Element::DoublePoint { diq }) => {
            &&& !timed
            &&& value.equals_integer(0) ==> diq.dpi is Off
            &&& value.equals_integer(1) ==> diq.dpi is On
            &&& !value.equals_integer(0) ==> diq.dpi is On
            &&& flags_say(quality, diq.iv, diq.nt, diq.sb, diq.bl)
        },
        (CollectPointKind::DoublePoint, Element::DoublePointTime { diq, time }) => {
            &&& timed
            &&& tags_a_moment(time)
            &&& value.equals_integer(0) ==> diq.dpi is Off
            &&& value.equals_integer(1) ==> diq.dpi is On
            &&& !value.equals_integer(0) ==> diq.dpi is On
            &&& flags_say(quality, diq.iv, diq.nt, diq.sb, diq.bl)
        },
        (CollectPointKind::Normalized, Element::Normalized { nva, qds }) => {
            &&& forall|number: int|
                -32768 <= number <= 32767 && #[trigger] value.equals_integer(number) ==> nva
                    == number
            &&& flags_say(quality, qds.iv, qds.nt, qds.sb, qds.bl)
            &&& !qds.ov
        },
        (CollectPointKind::NormalizedNoQuality, Element::NormalizedNoQuality { nva }) => {
            forall|number: int|
                -32768 <= number <= 32767 && #[trigger] value.equals_integer(number) ==> nva
                    == number
        },
        (CollectPointKind::Float, Element::ShortFloat { bits, qds }) => {
            &&& bits == value.single
            &&& flags_say(quality, qds.iv, qds.nt, qds.sb, qds.bl)
            &&& !qds.ov
        },
        (CollectPointKind::Counter, Element::Counter { bcr, sqd }) => {
            &&& forall|number: int|
                i32::MIN <= number <= i32::MAX && #[trigger] value.equals_integer(number) ==> bcr
                    == number
            &&& sqd.iv == (quality == "invalid"@)
            &&& sqd.ca == (quality == "substituted"@)
            &&& !sqd.cy
            &&& sqd.seq == point.counter_sequence
        },
        _ => false,
    }
}

/// The type of the units that report points of a kind.
pub open spec fn unit_type(kind: CollectPointKind, timed: bool) -> TypeId {
    match kind {
        CollectPointKind::SinglePoint => if timed {
            TypeId::M_SP_TB_1
        } else {
            TypeId::M_SP_NA_1
        },
        CollectPointKind::DoublePoint => if timed {
            TypeId::M_DP_TB_1
        } else {
            TypeId::M_DP_NA_1
        },
        CollectPointKind::Normalized => TypeId::M_ME_NA_1,
        CollectPointKind::NormalizedNoQuality => TypeId::M_ME_ND_1,
        CollectPointKind::Float => TypeId::M_ME_NC_1,
        CollectPointKind::Counter => TypeId::M_IT_NA_1,
    }
}

/// The unit has the header of the report, and holds something.
pub open spec fn is_headed(unit: AsduView, header: ReportHeader) -> bool {
    &&& unit.cot == header.cot
    &&& unit.address_field == header.common_address
    &&& unit.originator_address == header.originator_address
    &&& unit.test == header.test
    &&& !unit.negative
    &&& unit.objects is Known
    &&& unit.objects->Known_0.len() > 0
}

/// An object of a unit says what one of the covered points is.
pub open spec fn says_a_point(
    points: Seq<PointStateView>,
    covered: spec_fn(PointStateView) -> bool,
    timed: bool,
    unit: AsduView,
    index: int,
) -> bool {
    exists|p: int|
        0 <= p < points.len() && covered(points[p]) && unit.type_id == unit_type(
            points[p].config.kind,
            timed,
        ) && carries(#[trigger] points[p], unit.objects->Known_0[index], timed)
}

/// A unit says what the point is.
pub open spec fn is_said(point: PointStateView, timed: bool, units: Seq<AsduView>) -> bool {
    exists|u: int, i: int|
        0 <= u < units.len() && 0 <= i < units[u].objects->Known_0.len() && carries(
            point,
            #[trigger] units[u].objects->Known_0[i],
            timed,
        )
}

/// The units say what the covered points are at present, all of them and no
/// others.
pub open spec fn is_report_of(
    points: Seq<PointStateView>,
    covered: spec_fn(PointStateView) -> bool,
    timed: bool,
    header: ReportHeader,
    units: Seq<AsduView>,
) -> bool {
    &&& forall|u: int| 0 <= u < units.len() ==> is_headed(#[trigger] units[u], header)
    &&& forall|u: int, i: int|
        0 <= u < units.len() && 0 <= i < units[u].objects->Known_0.len() ==> #[trigger] says_a_point(
            points,
            covered,
            timed,
            units[u],
            i,
        )
    &&& forall|p: int|
        0 <= p < points.len() && covered(#[trigger] points[p]) ==> is_said(points[p], timed, units)
}

/// The points of a kind that carry data, in a group and with reports of changes
/// where asked.
pub open spec fn of_kind(
    kind: CollectPointKind,
    changes: bool,
    group: Option<u8>,
) -> spec_fn(PointStateView) -> bool {
    |point: PointStateView|
        {
            &&& point.config.purpose is Data || point.config.purpose is Both
            &&& point.config.kind == kind
            &&& group matches Some(number) ==> point.config.group == number
            &&& changes ==> point.config.soe
        }
}

proof fn lemma_picked_holds(
    points: Seq<PointStateView>,
    picks: spec_fn(PointStateView) -> bool,
    point: PointStateView,
)
    ensures
        picked(points, picks).contains(point) == (points.contains(point) && picks(point)),
    decreases points.len(),
{
    if points.len() > 0 {
        let fewer = points.drop_last();
        lemma_picked_holds(fewer, picks, point);
        let before = picked(fewer, picks);
        let all = picked(points, picks);
        assert(points =~= fewer.push(points.last()));
        assert(fewer.contains(point) ==> points.contains(point)) by {
            if fewer.contains(point) {
                let i = choose|i: int| 0 <= i < fewer.len() && fewer[i] == point;
                assert(points[i] == point);
            }
        }
        assert(points.contains(point) ==> fewer.contains(point) || point == points.last()) by {
            if points.contains(point) {
                let i = choose|i: int| 0 <= i < points.len() && points[i] == point;
                if i < fewer.len() {
                    assert(fewer[i] == point);
                }
            }
        }
        assert(points[points.len() - 1] == points.last());
        if picks(points.last()) {
            assert(all == before.push(points.last()));
            assert(all[before.len() as int] == points.last());
            if before.contains(point) {
                let i = choose|i: int| 0 <= i < before.len() && before[i] == point;
                assert(all[i] == point);
            }
            if all.contains(point) {
                let i = choose|i: int| 0 <= i < all.len() && all[i] == point;
                if i < before.len() {
                    assert(before[i] == point);
                }
            }
        }
    }
}

/// A group with a point, and where the point stands in it.
proof fn lemma_chunk_of(chunks: Seq<ChunkView>, point: PointStateView) -> (found: (int, int))
    requires
        chunked_points(chunks).contains(point),
    ensures
        0 <= found.0 < chunks.len(),
        0 <= found.1 < chunks[found.0].points.len(),
        chunks[found.0].points[found.1] == point,
    decreases chunks.len(),
{
    let rest = chunked_points(chunks.skip(1));
    let all = chunked_points(chunks);
    let k = choose|k: int| 0 <= k < all.len() && all[k] == point;
    if k < chunks[0].points.len() {
        (0, k)
    } else {
        assert(rest[k - chunks[0].points.len()] == point);
        let later = lemma_chunk_of(chunks.skip(1), point);
        (later.0 + 1, later.1)
    }
}

proof fn lemma_chunked_holds(chunks: Seq<ChunkView>, c: int, i: int)
    requires
        0 <= c < chunks.len(),
        0 <= i < chunks[c].points.len(),
    ensures
        chunked_points(chunks).contains(chunks[c].points[i]),
    decreases chunks.len(),
{
    let all = chunked_points(chunks);
    let rest = chunked_points(chunks.skip(1));
    if c == 0 {
        assert(all[i] == chunks[0].points[i]);
    } else {
        assert(chunks.skip(1)[c - 1] == chunks[c]);
        lemma_chunked_holds(chunks.skip(1), c - 1, i);
        let k = choose|k: int| 0 <= k < rest.len() && rest[k] == chunks[c].points[i];
        assert(all[chunks[0].points.len() + k] == chunks[c].points[i]);
    }
}

proof fn lemma_element_carries(
    kind: CollectPointKind,
    point: PointStateView,
    time: Option<Cp56Time2a>,
)
    requires
        point.config.kind == kind,
        time matches Some(tag) ==> (kind is SinglePoint || kind is DoublePoint) && tags_a_moment(
            tag,
        ),
    ensures
        carries(
            point,
            InformationObject {
                address: point.config.ioa,
                element: point_element(kind, point, time),
            },
            time is Some,
        ),
{
    let value = point.value.value;
    crate::number::lemma_whole_is_injective(0, 1);
    assert forall|number: int|
        -32768 <= number <= 32767 && #[trigger] value.equals_integer(number) implies value.saturated(
        -32768,
        32767,
    ) == number by {
        crate::number::lemma_whole_is_saturated(value, number, -32768, 32767);
    }
    assert forall|number: int|
        i32::MIN <= number <= i32::MAX && #[trigger] value.equals_integer(
            number,
        ) implies value.saturated(i32::MIN as int, i32::MAX as int) == number by {
        crate::number::lemma_whole_is_saturated(value, number, i32::MIN as int, i32::MAX as int);
    }
}

proof fn lemma_kind_is_reported(
    points: Seq<PointStateView>,
    kind: CollectPointKind,
    soe: Option<SoeKind>,
    group: Option<u8>,
    header: ReportHeader,
    units: Seq<AsduView>,
    times: Seq<Option<Cp56Time2a>>,
)
    requires
        report_type(kind, soe) is Ok,
        units.len() == kind_chunks(points, kind, soe, group).len(),
        times.len() == units.len(),
        forall|i: int|
            0 <= i < units.len() ==> #[trigger] units[i] == chunk_unit(
                kind,
                report_type(kind, soe)->Ok_0,
                kind_chunks(points, kind, soe, group)[i],
                header,
                times[i],
            ) && (times[i] is Some) == (soe is Some) && (times[i] matches Some(tag)
                ==> tags_a_moment(tag)),
    ensures
        is_report_of(points, of_kind(kind, soe is Some, group), soe is Some, header, units),
{
    let timed = soe is Some;
    let covered = of_kind(kind, timed, group);
    let type_id = report_type(kind, soe)->Ok_0;
    let size = type_id.element_size() as int;
    let chosen = picked(points, reports(kind, soe, group));
    let sorted = sorted_by(chosen, by_address());
    let chunks = kind_chunks(points, kind, soe, group);
    law_every_point_is_reported_once(sorted, size);
    crate::order::lemma_sorting_keeps_items(chosen, by_address());
    let own = picked(sorted, individually(true));
    let shared = picked(sorted, individually(false));
    assert(chunked_points(chunks) == own + shared);
    assert forall|u: int| 0 <= u < units.len() implies is_headed(#[trigger] units[u], header) by {
        assert(well_chunked(chunks[u], size));
    }
    assert forall|u: int, i: int|
        0 <= u < units.len() && 0 <= i < units[u].objects->Known_0.len() implies #[trigger] says_a_point(
        points,
        covered,
        timed,
        units[u],
        i,
    ) by {
        let point = chunks[u].points[i];
        lemma_chunked_holds(chunks, u, i);
        let k = choose|k: int| 0 <= k < (own + shared).len() && (own + shared)[k] == point;
        if k < own.len() {
            assert(own[k] == point);
        } else {
            assert(shared[k - own.len()] == point);
        }
        lemma_picked_holds(sorted, individually(true), point);
        lemma_picked_holds(sorted, individually(false), point);
        assert(sorted.contains(point));
        assert(chosen.contains(point));
        lemma_picked_holds(points, reports(kind, soe, group), point);
        let p = choose|p: int| 0 <= p < points.len() && points[p] == point;
        lemma_element_carries(kind, point, times[u]);
        assert(carries(points[p], units[u].objects->Known_0[i], timed));
    }
    assert forall|p: int| 0 <= p < points.len() && covered(#[trigger] points[p]) implies is_said(
        points[p],
        timed,
        units,
    ) by {
        let point = points[p];
        assert(points.contains(point));
        lemma_picked_holds(points, reports(kind, soe, group), point);
        assert(sorted.contains(point));
        lemma_picked_holds(sorted, individually(true), point);
        lemma_picked_holds(sorted, individually(false), point);
        assert((own + shared).contains(point)) by {
            if own.contains(point) {
                let k = choose|k: int| 0 <= k < own.len() && own[k] == point;
                assert((own + shared)[k] == point);
            } else {
                let k = choose|k: int| 0 <= k < shared.len() && shared[k] == point;
                assert((own + shared)[own.len() + k] == point);
            }
        }
        let (u, i) = lemma_chunk_of(chunks, point);
        assert(units[u] == chunk_unit(kind, type_id, chunks[u], header, times[u]));
        lemma_element_carries(kind, point, times[u]);
        assert(carries(point, units[u].objects->Known_0[i], timed));
    }
}

proof fn lemma_plain_kind_is_reported(
    points: Seq<PointStateView>,
    kind: CollectPointKind,
    group: Option<u8>,
    header: ReportHeader,
)
    ensures
        is_report_of(
            points,
            of_kind(kind, false, group),
            false,
            header,
            plain_units(points, kind, group, header),
        ),
{
    let units = plain_units(points, kind, group, header);
    let times = Seq::new(units.len(), |i: int| None::<Cp56Time2a>);
    lemma_kind_is_reported(points, kind, None, group, header, units, times);
}

/// The points of some kinds that carry data, in a group where one is asked.
pub open spec fn of_kinds(
    kinds: Seq<CollectPointKind>,
    group: Option<u8>,
) -> spec_fn(PointStateView) -> bool {
    |point: PointStateView|
        {
            &&& point.config.purpose is Data || point.config.purpose is Both
            &&& kinds.contains(point.config.kind)
            &&& group matches Some(number) ==> point.config.group == number
        }
}

proof fn lemma_kinds_are_reported(
    points: Seq<PointStateView>,
    kinds: Seq<CollectPointKind>,
    group: Option<u8>,
    header: ReportHeader,
)
    ensures
        is_report_of(
            points,
            of_kinds(kinds, group),
            false,
            header,
            kinds_units(points, kinds, group, header),
        ),
    decreases kinds.len(),
{
    if kinds.len() > 0 {
        let fewer = kinds.drop_last();
        lemma_kinds_are_reported(points, fewer, group, header);
        lemma_plain_kind_is_reported(points, kinds.last(), group, header);
        let first = kinds_units(points, fewer, group, header);
        let second = plain_units(points, kinds.last(), group, header);
        let units = kinds_units(points, kinds, group, header);
        let covered = of_kinds(kinds, group);
        assert(units == first + second);
        assert(kinds[kinds.len() - 1] == kinds.last());
        assert forall|kind: CollectPointKind| #[trigger]
            kinds.contains(kind) == (fewer.contains(kind) || kind == kinds.last()) by {
            if fewer.contains(kind) {
                let i = choose|i: int| 0 <= i < fewer.len() && fewer[i] == kind;
                assert(kinds[i] == kind);
            }
            if kinds.contains(kind) {
                let i = choose|i: int| 0 <= i < kinds.len() && kinds[i] == kind;
                if i < fewer.len() {
                    assert(fewer[i] == kind);
                }
            }
        }
        assert forall|u: int| 0 <= u < units.len() implies is_headed(
            #[trigger] units[u],
            header,
        ) by {
            if u < first.len() {
                assert(units[u] == first[u]);
            } else {
                assert(units[u] == second[u - first.len()]);
            }
        }
        assert forall|u: int, i: int|
            0 <= u < units.len() && 0 <= i < units[u].objects->Known_0.len() implies #[trigger] says_a_point(
            points,
            covered,
            false,
            units[u],
            i,
        ) by {
            let (part, at, picks) = if u < first.len() {
                (first, u, of_kinds(fewer, group))
            } else {
                (second, u - first.len(), of_kind(kinds.last(), false, group))
            };
            assert(units[u] == part[at]);
            let object = part[at].objects->Known_0[i];
            assert(says_a_point(points, picks, false, part[at], i));
            let p = choose|p: int|
                0 <= p < points.len() && picks(points[p]) && part[at].type_id == unit_type(
                    points[p].config.kind,
                    false,
                ) && carries(#[trigger] points[p], part[at].objects->Known_0[i], false);
            assert(covered(points[p]));
            assert(carries(points[p], units[u].objects->Known_0[i], false));
        }
        assert forall|p: int|
            0 <= p < points.len() && covered(#[trigger] points[p]) implies is_said(
            points[p],
            false,
            units,
        ) by {
            let point = points[p];
            let (part, shift) = if of_kinds(fewer, group)(point) {
                (first, 0int)
            } else {
                assert(of_kind(kinds.last(), false, group)(point));
                (second, first.len() as int)
            };
            assert(is_said(point, false, part));
            let (u, i) = choose|u: int, i: int|
                0 <= u < part.len() && 0 <= i < part[u].objects->Known_0.len() && carries(
                    point,
                    #[trigger] part[u].objects->Known_0[i],
                    false,
                );
            assert(units[u + shift] == part[u]);
            assert(carries(point, units[u + shift].objects->Known_0[i], false));
        }
    }
}

/// The points that a spontaneous report is about.
pub open spec fn is_about(upload: UploadKind) -> spec_fn(PointStateView) -> bool {
    |point: PointStateView|
        {
            &&& point.config.purpose is Data || point.config.purpose is Both
            &&& match upload {
                UploadKind::CurrentValues | UploadKind::RefreshAll => true,
                UploadKind::SinglePoint => point.config.kind is SinglePoint,
                UploadKind::DoublePoint => point.config.kind is DoublePoint,
                UploadKind::Normalized => point.config.kind is Normalized,
                UploadKind::NormalizedNoQuality => point.config.kind is NormalizedNoQuality,
                UploadKind::Float => point.config.kind is Float,
                UploadKind::Counter => point.config.kind is Counter,
                UploadKind::SingleSoe => point.config.kind is SinglePoint && point.config.soe,
                UploadKind::DoubleSoe => point.config.kind is DoublePoint && point.config.soe,
                UploadKind::InitializationEnd => false,
            }
        }
}

proof fn lemma_all_kinds()
    ensures
        forall|kind: CollectPointKind| #[trigger] kind_order().contains(kind),
        forall|kind: CollectPointKind| #[trigger]
            kind_order().take(5).contains(kind) == (kind !is Counter),
{
    let all = kind_order();
    let some = all.take(5);
    assert forall|kind: CollectPointKind| #[trigger] all.contains(kind) by {
        assert(all[0] is SinglePoint && all[1] is DoublePoint && all[2] is Normalized);
        assert(all[3] is NormalizedNoQuality && all[4] is Float && all[5] is Counter);
    }
    assert forall|kind: CollectPointKind| #[trigger] some.contains(kind) == (kind !is Counter) by {
        assert(some[0] is SinglePoint && some[1] is DoublePoint && some[2] is Normalized);
        assert(some[3] is NormalizedNoQuality && some[4] is Float);
    }
}

/// A spontaneous report says what every point that it is about is at present,
/// with the time where it reports changes, and says nothing of other points.
pub proof fn law_reports_say_present_values(
    points: Seq<PointStateView>,
    upload: UploadKind,
    header: ReportHeader,
    units: Seq<AsduView>,
)
    requires
        upload_units(points, upload, header, Ok(units)),
    ensures
        is_report_of(
            points,
            is_about(upload),
            upload is SingleSoe || upload is DoubleSoe,
            header,
            units,
        ),
{
    lemma_all_kinds();
    let about = is_about(upload);
    match upload {
        UploadKind::CurrentValues | UploadKind::RefreshAll => {
            lemma_kinds_are_reported(points, kind_order(), None, header);
            assert(of_kinds(kind_order(), None) =~= about);
        },
        UploadKind::SingleSoe | UploadKind::DoubleSoe => {
            let (kind, soe) = if upload is SingleSoe {
                (CollectPointKind::SinglePoint, SoeKind::Single)
            } else {
                (CollectPointKind::DoublePoint, SoeKind::Double)
            };
            let chunks = kind_chunks(points, kind, Some(soe), None);
            let type_id = report_type(kind, Some(soe))->Ok_0;
            assert(timed_units(points, kind, Some(soe), None, header, Ok(units)));
            let times = Seq::new(
                units.len(),
                |i: int|
                    Some(
                        choose|time: Cp56Time2a|
                            time.valid() && crate::protocol::asdu::local_tag(Ok(time)) && units[i]
                                == #[trigger] chunk_unit(
                                kind,
                                type_id,
                                chunks[i],
                                header,
                                Some(time),
                            ),
                    ),
            );
            assert forall|i: int| 0 <= i < units.len() implies #[trigger] units[i] == chunk_unit(
                kind,
                type_id,
                chunks[i],
                header,
                times[i],
            ) && (times[i] is Some) && (times[i] matches Some(tag) ==> tags_a_moment(tag)) by {
                assert(timed_unit(kind, type_id, chunks[i], header, units[i]));
            }
            lemma_kind_is_reported(points, kind, Some(soe), None, header, units, times);
            assert(of_kind(kind, true, None) =~= about);
        },
        UploadKind::InitializationEnd => {},
        UploadKind::SinglePoint => {
            lemma_plain_kind_is_reported(points, CollectPointKind::SinglePoint, None, header);
            assert(of_kind(CollectPointKind::SinglePoint, false, None) =~= about);
        },
        UploadKind::DoublePoint => {
            lemma_plain_kind_is_reported(points, CollectPointKind::DoublePoint, None, header);
            assert(of_kind(CollectPointKind::DoublePoint, false, None) =~= about);
        },
        UploadKind::Normalized => {
            lemma_plain_kind_is_reported(points, CollectPointKind::Normalized, None, header);
            assert(of_kind(CollectPointKind::Normalized, false, None) =~= about);
        },
        UploadKind::NormalizedNoQuality => {
            let kind = CollectPointKind::NormalizedNoQuality;
            lemma_plain_kind_is_reported(points, kind, None, header);
            assert(of_kind(kind, false, None) =~= about);
        },
        UploadKind::Float => {
            lemma_plain_kind_is_reported(points, CollectPointKind::Float, None, header);
            assert(of_kind(CollectPointKind::Float, false, None) =~= about);
        },
        UploadKind::Counter => {
            lemma_plain_kind_is_reported(points, CollectPointKind::Counter, None, header);
            assert(of_kind(CollectPointKind::Counter, false, None) =~= about);
        },
    }
}

/// A report without times always comes about, and nothing is reported as the
/// end of an initialization.
pub proof fn law_reports_come_about(
    points: Seq<PointStateView>,
    upload: UploadKind,
    header: ReportHeader,
    outcome: Result<Seq<AsduView>, Seq<char>>,
)
    requires
        upload_units(points, upload, header, outcome),
    ensures
        upload is InitializationEnd ==> outcome is Err,
        upload !is InitializationEnd && upload !is SingleSoe && upload !is DoubleSoe ==> outcome
            is Ok,
        outcome matches Err(text) ==> upload is InitializationEnd
            || crate::protocol::asdu::local_tag(Err(text)),
{
}

/// The points of an interrogation: those in the group where one is asked, the
/// counters apart from the others.
pub open spec fn is_asked_for(
    counters: bool,
    group: Option<u8>,
) -> spec_fn(PointStateView) -> bool {
    |point: PointStateView|
        {
            &&& point.config.purpose is Data || point.config.purpose is Both
            &&& point.config.kind is Counter == counters
            &&& group matches Some(number) ==> point.config.group == number
        }
}

/// The answer to an interrogation says what every point of the group is at
/// present: a general one all points but the counters, a counter one the
/// counters.
pub proof fn law_interrogations_say_present_values(
    points: Seq<PointStateView>,
    group: Option<u8>,
    header: ReportHeader,
)
    ensures
        is_report_of(
            points,
            is_asked_for(false, group),
            false,
            header,
            general_units(points, group, header),
        ),
        is_report_of(
            points,
            is_asked_for(true, group),
            false,
            header,
            plain_units(points, CollectPointKind::Counter, group, header),
        ),
{
    lemma_all_kinds();
    lemma_kinds_are_reported(points, kind_order().take(5), group, header);
    assert(of_kinds(kind_order().take(5), group) =~= is_asked_for(false, group));
    lemma_plain_kind_is_reported(points, CollectPointKind::Counter, group, header);
    assert(of_kind(CollectPointKind::Counter, false, group) =~= is_asked_for(true, group));
}

// ---------------------------------------------------------------------------
// Laws of the points and their values.
/// The text shows the present value of the point.
pub open spec fn shows_value(point: PointStateView, text: Seq<char>) -> bool {
    let value = point.value.value;
    match point.config.kind {
        CollectPointKind::SinglePoint => {
            &&& value.equals_integer(0) ==> text == "0 / 分"@
            &&& value.equals_integer(1) ==> text == "1 / 合"@
        },
        CollectPointKind::DoublePoint => {
            &&& value.equals_integer(0) ==> text == "0 / 分（DPI=1）"@
            &&& value.equals_integer(1) ==> text == "1 / 合（DPI=2）"@
        },
        CollectPointKind::Float => text == point.value.fixed,
        _ => text == point.value.rounded,
    }
}

/// The name of the type that a kind is known by.
pub open spec fn type_mnemonic(kind: CollectPointKind) -> Seq<char> {
    match kind {
        CollectPointKind::SinglePoint => "M_SP_NA_1"@,
        CollectPointKind::DoublePoint => "M_DP_NA_1"@,
        CollectPointKind::Normalized => "M_ME_NA_1"@,
        CollectPointKind::NormalizedNoQuality => "M_ME_ND_1"@,
        CollectPointKind::Float => "M_ME_NC_1"@,
        CollectPointKind::Counter => "M_IT_NA_1"@,
    }
}

/// The row tells of the point.
pub open spec fn tells_of(row: PointRow, point: PointStateView) -> bool {
    &&& row.ioa == point.config.ioa
    &&& row.name == point.config.name
    &&& row.type_id == type_mnemonic(point.config.kind)
    &&& row.value matches Some(text) && shows_value(point, text)
    &&& row.quality == raised(point.config.quality)
    &&& row.updated_ms == Some(point.updated_ms)
    &&& row.configured
}

/// Every point has a row that tells of it, every row tells of a point, and the
/// rows stand by address.
pub proof fn law_every_point_has_its_row(points: Seq<PointStateView>)
    ensures
        station_rows(points).len() == points.len(),
        forall|i: int, j: int|
            0 <= i < j < points.len() ==> (#[trigger] station_rows(points)[i]).ioa <= (
            #[trigger] station_rows(points)[j]).ioa,
        forall|p: int|
            0 <= p < points.len() ==> exists|r: int|
                0 <= r < points.len() && tells_of(
                    #[trigger] station_rows(points)[r],
                    #[trigger] points[p],
                ),
        forall|r: int|
            0 <= r < points.len() ==> exists|p: int|
                0 <= p < points.len() && tells_of(
                    #[trigger] station_rows(points)[r],
                    #[trigger] points[p],
                ),
{
    crate::number::lemma_whole_is_injective(0, 1);
    let unsorted = points.map_values(|point: PointStateView| point_row(point));
    let sorted = station_rows(points);
    crate::order::law_sorting(unsorted, rows_by_address());
    crate::order::lemma_sorting_keeps_items(unsorted, rows_by_address());
    assert(crate::order::total_order(rows_by_address()));
    assert forall|i: int, j: int| 0 <= i < j < points.len() implies (#[trigger] sorted[i]).ioa <= (
    #[trigger] sorted[j]).ioa by {
        assert(rows_by_address()(sorted[i], sorted[j]));
    }
    assert forall|p: int| 0 <= p < points.len() implies exists|r: int|
        0 <= r < points.len() && tells_of(#[trigger] sorted[r], #[trigger] points[p]) by {
        assert(unsorted[p] == point_row(points[p]));
        assert(unsorted.contains(unsorted[p]));
        assert(sorted.contains(unsorted[p]));
        let r = choose|r: int| 0 <= r < sorted.len() && sorted[r] == unsorted[p];
        assert(tells_of(sorted[r], points[p]));
    }
    assert forall|r: int| 0 <= r < points.len() implies exists|p: int|
        0 <= p < points.len() && tells_of(#[trigger] sorted[r], #[trigger] points[p]) by {
        assert(sorted.contains(sorted[r]));
        assert(unsorted.contains(sorted[r]));
        let p = choose|p: int| 0 <= p < unsorted.len() && unsorted[p] == sorted[r];
        assert(tells_of(sorted[r], points[p]));
    }
}

/// The point at the position is the first with the address and kind.
pub open spec fn is_first_of(
    points: Seq<PointStateView>,
    index: int,
    ioa: u32,
    kind: CollectPointKind,
) -> bool {
    &&& 0 <= index < points.len()
    &&& points[index].config.ioa == ioa && points[index].config.kind == kind
    &&& forall|i: int|
        0 <= i < index ==> (#[trigger] points[i]).config.ioa != ioa || points[i].config.kind
            != kind
}

/// A point that a new table still has at its address and of its kind keeps its
/// value, its counter number and its time, unless the value lies outside the
/// new range; any other point begins with its first value.
pub proof fn law_new_tables_keep_fitting_values(
    points: Seq<PointStateView>,
    config: CollectPointView,
    now: u64,
    index: int,
)
    ensures
        reconfigured_point(points, config, now).config == config,
        is_first_of(points, index, config.ioa, config.kind) ==> {
            let before = points[index];
            let after = reconfigured_point(points, config, now);
            if double_at_most(config.min.value.double, before.value.value.double)
                && double_at_most(before.value.value.double, config.max.value.double) {
                after.value == before.value && after.counter_sequence == before.counter_sequence
                    && after.updated_ms == before.updated_ms
            } else {
                after.value == config.initial && after.counter_sequence == 0 && after.updated_ms
                    == now
            }
        },
        (forall|i: int|
            0 <= i < points.len() ==> (#[trigger] points[i]).config.ioa != config.ioa
                || points[i].config.kind != config.kind) ==> {
            let after = reconfigured_point(points, config, now);
            after.value == config.initial && after.counter_sequence == 0 && after.updated_ms == now
        },
{
    lemma_position(points, same_point(config));
    if let Some(found) = position(points, same_point(config)) {
        if is_first_of(points, index, config.ioa, config.kind) {
            if found < index {
                assert(same_point(config)(points[found]));
            } else if index < found {
                assert(same_point(config)(points[index]));
            }
        }
        assert(same_point(config)(points[found]));
    }
}

/// A refresh gives the points that it is about new values and the time, and
/// leaves the others as they are: a state turns over where its range holds the
/// other one, an integer is another one of the range, and a float is the drawn
/// one where that lies in the range and is another one. The number of a counter
/// counts up below 32.
pub proof fn law_refreshes_renew_what_they_are_about(
    upload: UploadKind,
    before: PointStateView,
    drawn: SampleView,
    now: u64,
    after: PointStateView,
)
    requires
        refreshed_point(upload, before, drawn, now, after),
    ensures
        upload is CurrentValues || !is_about(upload)(before) ==> after == before,
        upload !is CurrentValues && is_about(upload)(before) ==> {
            let config = before.config;
            let value = before.value.value;
            &&& after.config == config
            &&& after.updated_ms == now
            &&& config.kind !is Counter ==> after.counter_sequence == before.counter_sequence
            &&& config.kind is Counter && before.counter_sequence < 31 ==> after.counter_sequence
                == before.counter_sequence + 1
            &&& config.kind is Counter && before.counter_sequence == 31 ==> after.counter_sequence
                == 0
            &&& config.kind is SinglePoint || config.kind is DoublePoint ==> {
                &&& value.equals_integer(0) && crate::number::state_real(true).within(
                    config.min.value,
                    config.max.value,
                ) ==> after.value.value.equals_integer(1)
                &&& value.equals_integer(1) && crate::number::state_real(false).within(
                    config.min.value,
                    config.max.value,
                ) ==> after.value.value.equals_integer(0)
            }
            &&& config.kind is Normalized || config.kind is NormalizedNoQuality ==> forall|
                low: int,
                high: int,
            |
                -32768 <= low <= high <= 32767 && #[trigger] config.min.value.equals_integer(low)
                    && #[trigger] config.max.value.equals_integer(high)
                    ==> after.value.value.integer_within(low, high) && (low < high && value.finite() ==> !(
                after.value.value.same(value)))
            &&& config.kind is Counter ==> forall|low: int, high: int|
                i32::MIN <= low <= high <= i32::MAX && #[trigger] config.min.value.equals_integer(
                    low,
                ) && #[trigger] config.max.value.equals_integer(high)
                    ==> after.value.value.integer_within(low, high) && (low < high && value.finite() ==> !(
                after.value.value.same(value)))
            &&& config.kind is Float && !config.min.value.same(config.max.value)
                && drawn.value.within(config.min.value, config.max.value) && !drawn.value.same(
                value,
            ) ==> after.value == drawn
            &&& config.kind is Float ==> after.value == drawn || after.value == config.min
                || after.value == config.max
        },
{
    if upload !is CurrentValues && is_about(upload)(before) {
        let config = before.config;
        let value = before.value.value;
        crate::number::lemma_whole_is_injective(0, 1);
        crate::number::law_state_is_zero_or_one(true);
        crate::number::law_state_is_zero_or_one(false);
        let (least, most) = if config.kind is Counter {
            (i32::MIN as int, i32::MAX as int)
        } else {
            (-32768int, 32767int)
        };
        if config.kind is Counter || config.kind is Normalized || config.kind
            is NormalizedNoQuality {
            let min = config.min.value.saturated(least, most);
            let max = config.max.value.saturated(least, most);
            let number = choose|number: int|
                min <= number <= max && (min < max ==> !value.equals_integer(number))
                    && #[trigger] integer_sample(after.value, number);
            assert forall|low: int, high: int|
                least <= low <= high <= most && #[trigger] config.min.value.equals_integer(low)
                    && #[trigger] config.max.value.equals_integer(
                    high,
                ) implies after.value.value.integer_within(low, high) && (low < high && value.finite() ==> !(
            after.value.value.same(value))) by {
                crate::number::lemma_whole_is_saturated(config.min.value, low, least, most);
                crate::number::lemma_whole_is_saturated(config.max.value, high, least, most);
                assert(after.value.value.equals_integer(number));
            }
        }
    }
}

/// A report covers as many points as it is about.
pub proof fn law_reports_count_their_points(upload: UploadKind, points: Seq<PointStateView>)
    ensures
        selected_count(upload, points) == points.filter(is_about(upload)).len(),
    decreases points.len(),
{
    reveal(Seq::filter);
    if points.len() > 0 {
        law_reports_count_their_points(upload, points.drop_last());
    }
}

/// The value may be set: it is a number in the range of the point, zero or one
/// for a state, and an integer of its size for a normalized value or a counter.
pub open spec fn may_be_set(point: PointStateView, value: Real) -> bool {
    &&& double_finite(value.double)
    &&& double_at_most(point.config.min.value.double, value.double)
    &&& double_at_most(value.double, point.config.max.value.double)
    &&& match point.config.kind {
        CollectPointKind::SinglePoint | CollectPointKind::DoublePoint => value.equals_integer(0)
            || value.equals_integer(1),
        CollectPointKind::Normalized | CollectPointKind::NormalizedNoQuality => exists|number: int|
            -32768 <= number <= 32767 && #[trigger] value.equals_integer(number),
        CollectPointKind::Counter => exists|number: int|
            -0x8000_0000 <= number <= 0x7FFF_FFFF && #[trigger] value.equals_integer(number),
        CollectPointKind::Float => true,
    }
}

/// Setting a value gives it, with the time, to the first point at the address
/// and of the type, where it may be set, and changes nothing else; it is
/// answered with the value as it is shown. Otherwise nothing changes.
pub proof fn law_values_are_set_where_they_may(
    points: Seq<PointStateView>,
    ioa: u32,
    kind: CollectPointKind,
    value: SampleView,
    now: u64,
    index: int,
)
    ensures
        is_first_of(points, index, ioa, kind) ==> {
            let (after, answer) = after_set_value(points, ioa, type_mnemonic(kind), value, now);
            &&& answer is Ok == may_be_set(points[index], value.value)
            &&& answer matches Ok(text) ==> {
                &&& after.len() == points.len()
                &&& after[index].value == value
                &&& after[index].updated_ms == now
                &&& after[index].config == points[index].config
                &&& after[index].counter_sequence == points[index].counter_sequence
                &&& forall|i: int|
                    0 <= i < points.len() && i != index ==> #[trigger] after[i] == points[i]
                &&& shows_value(after[index], text)
            }
            &&& answer is Err ==> after == points
        },
        (forall|i: int|
            0 <= i < points.len() ==> (#[trigger] points[i]).config.ioa != ioa
                || points[i].config.kind != kind) ==> after_set_value(
            points,
            ioa,
            type_mnemonic(kind),
            value,
            now,
        ) == (points, Err::<Seq<char>, Seq<char>>(
            "点表中不存在 "@ + type_mnemonic(kind) + "/IOA="@ + decimal(ioa as nat),
        )),
{
    let picks = of_type(ioa, type_mnemonic(kind));
    crate::number::lemma_whole_is_injective(0, 1);
    lemma_mnemonics_differ();
    lemma_position(points, picks);
    assert forall|i: int| 0 <= i < points.len() implies picks(#[trigger] points[i]) == (
    points[i].config.ioa == ioa && points[i].config.kind == kind) by {
        assert(points[i].config.kind.type_id_text() == type_mnemonic(points[i].config.kind));
        if points[i].config.kind != kind {
            assert(type_mnemonic(points[i].config.kind) != type_mnemonic(kind));
        }
    }
    if let Some(found) = position(points, picks) {
        if is_first_of(points, index, ioa, kind) {
            if found < index {
                assert(picks(points[found]));
            } else if index < found {
                assert(picks(points[index]));
            }
        }
    } else if is_first_of(points, index, ioa, kind) {
        assert(picks(points[index]));
    }
}

proof fn lemma_mnemonics_differ()
    ensures
        forall|a: CollectPointKind, b: CollectPointKind|
            a != b ==> #[trigger] type_mnemonic(a) != #[trigger] type_mnemonic(b),
{
    reveal_strlit("M_SP_NA_1");
    reveal_strlit("M_DP_NA_1");
    reveal_strlit("M_ME_NA_1");
    reveal_strlit("M_ME_ND_1");
    reveal_strlit("M_ME_NC_1");
    reveal_strlit("M_IT_NA_1");
    assert forall|a: CollectPointKind, b: CollectPointKind| a != b implies #[trigger] type_mnemonic(
        a,
    ) != #[trigger] type_mnemonic(b) by {
        let left = type_mnemonic(a);
        let right = type_mnemonic(b);
        assert(left[2] != right[2] || left[5] != right[5] || left[6] != right[6]);
    }
}

/// The point at the position is the first that commands of the kind operate at
/// the address.
pub open spec fn is_operated(
    points: Seq<PointStateView>,
    index: int,
    ioa: u32,
    kind: ControlKind,
) -> bool {
    &&& 0 <= index < points.len()
    &&& may_operate(points[index], ioa, kind)
    &&& forall|i: int| 0 <= i < index ==> !#[trigger] may_operate(points[i], ioa, kind)
}

pub open spec fn may_operate(point: PointStateView, ioa: u32, kind: ControlKind) -> bool {
    &&& point.config.ioa == ioa
    &&& point.config.purpose is ControlTarget || point.config.purpose is Both
    &&& point.config.control == Some(kind)
}

/// A value is a goal of a point: it is a number in its range.
pub open spec fn may_be_a_goal(point: PointStateView, value: Real) -> bool {
    &&& double_finite(value.double)
    &&& double_at_most(point.config.min.value.double, value.double)
    &&& double_at_most(value.double, point.config.max.value.double)
}

/// A command leads to the state that it names, to the set point, or one step up
/// or down from the present value; it is refused where that is out of the range
/// of its target, where it names nothing, and where it has no target.
pub proof fn law_commands_lead_to_their_goals(
    points: Seq<PointStateView>,
    ioa: u32,
    kind: ControlKind,
    computed: SampleView,
    index: int,
    from: int,
    by: int,
)
    requires
        is_operated(points, index, ioa, kind),
    ensures
        forall|on: bool|
            match #[trigger] control_outcome(
                points,
                ioa,
                kind,
                ControlRequest::State(Some(on)),
                computed,
            ) {
                Ok(goal) => goal.value.equals_integer(
                    if on {
                        1
                    } else {
                        0
                    },
                ) && may_be_a_goal(points[index], goal.value),
                Err(_) => !may_be_a_goal(points[index], crate::number::state_real(on)),
            },
        control_outcome(points, ioa, kind, ControlRequest::State(None), computed) is Err,
        control_outcome(points, ioa, kind, ControlRequest::Step(None), computed) is Err,
        match control_outcome(points, ioa, kind, ControlRequest::Setpoint, computed) {
            Ok(goal) => goal == computed && may_be_a_goal(points[index], computed.value),
            Err(_) => !may_be_a_goal(points[index], computed.value),
        },
        -WHOLE_LIMIT < from < WHOLE_LIMIT && -WHOLE_LIMIT < by < WHOLE_LIMIT && -WHOLE_LIMIT < from
            + by < WHOLE_LIMIT && -WHOLE_LIMIT < from - by < WHOLE_LIMIT
            && points[index].value.value.equals_integer(from)
            && points[index].config.step.equals_integer(by) ==> forall|up: bool|
            match #[trigger] control_outcome(
                points,
                ioa,
                kind,
                ControlRequest::Step(Some(up)),
                computed,
            ) {
                Ok(goal) => goal.value.equals_integer(
                    if up {
                        from + by
                    } else {
                        from - by
                    },
                ) && may_be_a_goal(points[index], goal.value),
                Err(_) => !may_be_a_goal(
                    points[index],
                    whole_real(
                        if up {
                            from + by
                        } else {
                            from - by
                        },
                    ),
                ),
            },
{
    lemma_operated(points, index, ioa, kind);
    crate::number::law_state_is_zero_or_one(true);
    crate::number::law_state_is_zero_or_one(false);
    if -WHOLE_LIMIT < from < WHOLE_LIMIT && -WHOLE_LIMIT < by < WHOLE_LIMIT && -WHOLE_LIMIT < from
        + by < WHOLE_LIMIT && -WHOLE_LIMIT < from - by < WHOLE_LIMIT
        && points[index].value.value.equals_integer(from)
        && points[index].config.step.equals_integer(by) {
        law_whole_steps_add_up(
            from,
            by,
            points[index].value.value,
            points[index].config.step,
            true,
            computed,
        );
        law_whole_steps_add_up(
            from,
            by,
            points[index].value.value,
            points[index].config.step,
            false,
            computed,
        );
    }
}

/// The position of the point that a command operates is where it is looked up.
pub proof fn lemma_operated(
    points: Seq<PointStateView>,
    index: int,
    ioa: u32,
    kind: ControlKind,
)
    requires
        is_operated(points, index, ioa, kind),
    ensures
        position(points, control_target(ioa, kind)) == Some(index),
{
    let picks = control_target(ioa, kind);
    lemma_position(points, picks);
    assert(picks(points[index]));
    if let Some(found) = position(points, picks) {
        if found < index {
            assert(may_operate(points[found], ioa, kind));
        }
    }
}

/// A command without a target is refused.
pub proof fn law_commands_need_a_target(
    points: Seq<PointStateView>,
    ioa: u32,
    kind: ControlKind,
    request: ControlRequest,
    computed: SampleView,
)
    requires
        forall|i: int| 0 <= i < points.len() ==> !#[trigger] may_operate(points[i], ioa, kind),
    ensures
        control_outcome(points, ioa, kind, request, computed) is Err,
        position(points, control_target(ioa, kind)) is None,
{
    lemma_position(points, control_target(ioa, kind));
    if let Some(found) = position(points, control_target(ioa, kind)) {
        assert(may_operate(points[found], ioa, kind));
    }
}

/// The room in a unit: after the header of six octets an element needs its
/// octets and three for its address, unless all share the first address.
pub proof fn law_units_are_filled(size: int)
    requires
        1 <= size <= 12,
    ensures
        6 + object_limit(size, false) * (size + 3) <= 249,
        9 + object_limit(size, true) * size <= 249,
        object_limit(size, false) <= 127,
        object_limit(size, true) <= 127,
        object_limit(size, false) == 127 || 6 + (object_limit(size, false) + 1) * (size + 3) > 249,
        object_limit(size, true) == 127 || 9 + (object_limit(size, true) + 1) * size > 249,
{
    law_limit_is_tight(size, false);
    law_limit_is_tight(size, true);
}

/// The points stand by address.
pub open spec fn stand_by_address(points: Seq<PointStateView>) -> bool {
    forall|i: int, j: int|
        0 <= i < j < points.len() ==> (#[trigger] points[i]).config.ioa <= (
        #[trigger] points[j]).config.ioa
}

/// Points that share a unit stand by address. Those that are to be addressed
/// individually each have their own address; others share the first one where
/// there is more than one of them.
pub open spec fn shares_as_configured(unit: ChunkView) -> bool {
    &&& stand_by_address(unit.points)
    &&& unit.sequence ==> unit.points.len() > 1
    &&& unit.points.len() > 1 ==> forall|i: int|
        0 <= i < unit.points.len() ==> ((#[trigger] unit.points[i]).config.addressing is Individual
            <==> !unit.sequence)
}

proof fn lemma_picked_stand_by_address(
    points: Seq<PointStateView>,
    picks: spec_fn(PointStateView) -> bool,
)
    requires
        stand_by_address(points),
    ensures
        stand_by_address(picked(points, picks)),
        forall|i: int| 0 <= i < picked(points, picks).len() ==> picks(
            #[trigger] picked(points, picks)[i],
        ),
        forall|i: int|
            0 <= i < picked(points, picks).len() ==> (#[trigger] picked(
                points,
                picks,
            )[i]).config.ioa <= points.last().config.ioa,
    decreases points.len(),
{
    if points.len() > 0 {
        let fewer = points.drop_last();
        assert(stand_by_address(fewer)) by {
            assert forall|i: int, j: int| 0 <= i < j < fewer.len() implies (
            #[trigger] fewer[i]).config.ioa <= (#[trigger] fewer[j]).config.ioa by {
                assert(points[i] == fewer[i] && points[j] == fewer[j]);
            }
        }
        lemma_picked_stand_by_address(fewer, picks);
        let before = picked(fewer, picks);
        let after = picked(points, picks);
        if fewer.len() > 0 {
            assert(points[fewer.len() - 1].config.ioa <= points[points.len() - 1].config.ioa);
        }
        assert forall|i: int| 0 <= i < after.len() implies picks(#[trigger] after[i])
            && after[i].config.ioa <= points.last().config.ioa by {
            if i < before.len() {
                assert(after[i] == before[i]);
            }
        }
        assert forall|i: int, j: int| 0 <= i < j < after.len() implies (
        #[trigger] after[i]).config.ioa <= (#[trigger] after[j]).config.ioa by {
            assert(after[i] == before[i]);
            if j < before.len() {
                assert(after[j] == before[j]);
            }
        }
    }
}

proof fn lemma_individual_units_share_nothing(points: Seq<PointStateView>, limit: int)
    requires
        limit > 0,
        stand_by_address(points),
        forall|i: int|
            0 <= i < points.len() ==> (#[trigger] points[i]).config.addressing is Individual,
    ensures
        forall|c: int|
            0 <= c < individual_chunks(points, limit).len() ==> shares_as_configured(
                #[trigger] individual_chunks(points, limit)[c],
            ),
    decreases points.len(),
{
    if points.len() > limit {
        let rest = points.skip(limit);
        assert(stand_by_address(rest)) by {
            assert forall|i: int, j: int| 0 <= i < j < rest.len() implies (
            #[trigger] rest[i]).config.ioa <= (#[trigger] rest[j]).config.ioa by {
                assert(points[limit + i] == rest[i] && points[limit + j] == rest[j]);
            }
        }
        assert forall|i: int| 0 <= i < rest.len() implies (
        #[trigger] rest[i]).config.addressing is Individual by {
            assert(points[limit + i] == rest[i]);
        }
        lemma_individual_units_share_nothing(rest, limit);
        let chunks = individual_chunks(points, limit);
        assert forall|c: int| 0 <= c < chunks.len() implies shares_as_configured(
            #[trigger] chunks[c],
        ) by {
            if c > 0 {
                assert(chunks[c] == individual_chunks(rest, limit)[c - 1]);
            }
        }
    }
}

proof fn lemma_runs_share_an_address(points: Seq<PointStateView>, limit: int)
    requires
        limit > 0,
        stand_by_address(points),
        forall|i: int|
            0 <= i < points.len() ==> (#[trigger] points[i]).config.addressing !is Individual,
    ensures
        forall|c: int|
            0 <= c < sequence_chunks(points, limit).len() ==> shares_as_configured(
                #[trigger] sequence_chunks(points, limit)[c],
            ),
    decreases points.len(),
{
    if points.len() > 0 {
        let end = run_end(points, limit, 1);
        lemma_run_end(points, limit, 1);
        let rest = points.skip(end);
        assert(stand_by_address(rest)) by {
            assert forall|i: int, j: int| 0 <= i < j < rest.len() implies (
            #[trigger] rest[i]).config.ioa <= (#[trigger] rest[j]).config.ioa by {
                assert(points[end + i] == rest[i] && points[end + j] == rest[j]);
            }
        }
        assert forall|i: int| 0 <= i < rest.len() implies (
        #[trigger] rest[i]).config.addressing !is Individual by {
            assert(points[end + i] == rest[i]);
        }
        lemma_runs_share_an_address(rest, limit);
        let chunks = sequence_chunks(points, limit);
        assert forall|c: int| 0 <= c < chunks.len() implies shares_as_configured(
            #[trigger] chunks[c],
        ) by {
            if c > 0 {
                assert(chunks[c] == sequence_chunks(rest, limit)[c - 1]);
            }
        }
    }
}

/// The objects of every unit of a report stand by address, and share the first
/// address exactly where there is more than one and their points are not to be
/// addressed individually.
pub proof fn law_points_share_addresses_as_configured(
    points: Seq<PointStateView>,
    kind: CollectPointKind,
    soe: Option<SoeKind>,
    group: Option<u8>,
    header: ReportHeader,
    time: Option<Cp56Time2a>,
)
    requires
        report_type(kind, soe) is Ok,
    ensures
        forall|c: int|
            0 <= c < kind_chunks(points, kind, soe, group).len() ==> {
                let chunk = #[trigger] kind_chunks(points, kind, soe, group)[c];
                let unit = chunk_unit(kind, unit_type(kind, soe is Some), chunk, header, time);
                &&& shares_as_configured(chunk)
                &&& unit.sequence == chunk.sequence
                &&& unit.objects->Known_0.len() == chunk.points.len()
                &&& forall|i: int|
                    0 <= i < chunk.points.len() ==> (
                    #[trigger] unit.objects->Known_0[i]).address == chunk.points[i].config.ioa
            },
{
    let size = report_type(kind, soe)->Ok_0.element_size() as int;
    let chosen = picked(points, reports(kind, soe, group));
    let sorted = sorted_by(chosen, by_address());
    crate::order::law_sorting(chosen, by_address());
    assert(crate::order::total_order(by_address()));
    assert forall|i: int, j: int| 0 <= i < j < sorted.len() implies (
    #[trigger] sorted[i]).config.ioa <= (#[trigger] sorted[j]).config.ioa by {
        assert(by_address()(sorted[i], sorted[j]));
    }
    law_limit_is_tight(size, false);
    law_limit_is_tight(size, true);
    let own = picked(sorted, individually(true));
    let shared = picked(sorted, individually(false));
    lemma_picked_stand_by_address(sorted, individually(true));
    lemma_picked_stand_by_address(sorted, individually(false));
    assert forall|i: int| 0 <= i < own.len() implies (#[trigger] own[i]).config.addressing
        is Individual by {
        assert(individually(true)(own[i]));
    }
    assert forall|i: int| 0 <= i < shared.len() implies (#[trigger] shared[i]).config.addressing
        !is Individual by {
        assert(individually(false)(shared[i]));
    }
    let first = individual_chunks(own, object_limit(size, false));
    let second = sequence_chunks(shared, object_limit(size, true));
    lemma_individual_units_share_nothing(own, object_limit(size, false));
    lemma_runs_share_an_address(shared, object_limit(size, true));
    let chunks = kind_chunks(points, kind, soe, group);
    assert(chunks == first + second);
    assert forall|c: int| 0 <= c < chunks.len() implies shares_as_configured(
        #[trigger] chunks[c],
    ) by {
        if c < first.len() {
            assert(chunks[c] == first[c]);
        } else {
            assert(chunks[c] == second[c - first.len()]);
        }
    }
}

/// A run of points that share an address goes on until the next address is
/// missing or the unit is full: no two units that follow each other could have
/// been one. Points with addresses of their own fill each unit before the next.
pub proof fn law_units_hold_what_they_can(points: Seq<PointStateView>, limit: int)
    requires
        limit > 0,
        points.len() > 0,
    ensures
        ({
            let chunk = sequence_chunks(points, limit)[0];
            let length = chunk.points.len();
            &&& sequence_chunks(points, limit).len() > 0
            &&& chunk.points == points.take(length as int)
            &&& length == limit || length == points.len() || points[length as int].config.ioa
                != points[length - 1].config.ioa + 1
        }),
        ({
            let chunk = individual_chunks(points, limit)[0];
            &&& individual_chunks(points, limit).len() > 0
            &&& chunk.points == points.take(chunk.points.len() as int)
            &&& chunk.points.len() == limit || chunk.points.len() == points.len()
        }),
{
    lemma_run_end(points, limit, 1);
    lemma_run_stops(points, limit, 1);
    assert(points.take(points.len() as int) =~= points);
}

proof fn lemma_run_stops(points: Seq<PointStateView>, limit: int, end: int)
    requires
        1 <= end <= points.len(),
        end <= limit,
    ensures
        ({
            let stop = run_end(points, limit, end);
            stop == limit || stop == points.len() || !follows(points, stop)
        }),
    decreases points.len() - end,
{
    if end < points.len() && end < limit && follows(points, end) {
        lemma_run_stops(points, limit, end + 1);
    }
}

} // verus!
