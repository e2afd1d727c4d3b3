//! Suppression windows: ranges of time in which no job is dispatched.

use vstd::prelude::*;
use vstd::relations::sorted_by;
use vstd::relations::total_ordering;
use vstd::seq_lib::lemma_sorted_unique;
use vstd::string::StrSliceExecFns;
use vstd::string::StringExecFns;

use crate::text::last_index_of;
use crate::text::last_position;
use crate::text::lemma_last_index_of;
use crate::time::Timestamp;
use crate::time::format_datetime;
use crate::time::formatted_datetime;
use crate::time::lemma_timestamp_order_total;
use crate::time::parse_datetime;
use crate::time::parsed_datetime;
use crate::time::timestamp_of;

verus! {

/// Length of the window that a single instant stands for, in seconds.
pub const DEFAULT_WINDOW_SECONDS: u32 = 3600;

/// A window of time, both ends included.
#[derive(Debug, Clone, Copy, PartialEq, Eq, PartialOrd, Ord, Structural)]
pub enum Supression {
    Range(Timestamp, Timestamp),
}

impl Supression {
    /// The first instant of the window.
    pub open spec fn start(self) -> Timestamp {
        match self {
            Supression::Range(min, _) => min,
        }
    }

    /// The last instant of the window.
    pub open spec fn end(self) -> Timestamp {
        match self {
            Supression::Range(_, max) => max,
        }
    }

    /// `time` lies in the window.
    pub open spec fn covers(self, time: Timestamp) -> bool {
        self.start().at_or_before(time) && time.at_or_before(self.end())
    }

    /// The window that a single parsed instant stands for: one hour from
    /// it, where that hour ends on the time line; none where the text was
    /// refused.
    pub open spec fn spec_starting_at(min: Option<Timestamp>) -> Option<Supression> {
        match min {
            Some(min) => match min.spec_plus_seconds(DEFAULT_WINDOW_SECONDS as int) {
                Some(max) => Some(Supression::Range(min, max)),
                None => None,
            },
            None => None,
        }
    }

    /// The window between two parsed instants: none where a text was
    /// refused or the second lies before the first.
    pub open spec fn spec_between(min: Option<Timestamp>, max: Option<Timestamp>) -> Option<
        Supression,
    > {
        match (min, max) {
            (Some(min), Some(max)) => if max.before(min) {
                None
            } else {
                Some(Supression::Range(min, max))
            },
            _ => None,
        }
    }

    /// Text that `parse_supression` reads as this window: both ends as
    /// `chrono` writes them, with one space between.
    pub open spec fn spec_format(self) -> Seq<char> {
        formatted_datetime(self.start().secs, self.start().nanos) + seq![' '] + formatted_datetime(
            self.end().secs,
            self.end().nanos,
        )
    }

    pub fn is_supressed(&self, time: Timestamp) -> (r: bool)
        ensures
            r == self.covers(time),
    {
        match self {
            Supression::Range(min, max) => min.is_at_or_before(&time) && time.is_at_or_before(max),
        }
    }

    /// The instant by which windows are told apart.
    pub fn key(&self) -> (r: Timestamp)
        ensures
            r == self.start(),
    {
        match self {
            Supression::Range(min, _) => *min,
        }
    }

    pub fn starting_at(min: Option<Timestamp>) -> (r: Option<Supression>)
        ensures
            r == Self::spec_starting_at(min),
    {
        match min {
            Some(min) => match min.plus_seconds(DEFAULT_WINDOW_SECONDS) {
                Some(max) => Some(Supression::Range(min, max)),
                None => None,
            },
            None => None,
        }
    }

    pub fn between(min: Option<Timestamp>, max: Option<Timestamp>) -> (r: Option<Supression>)
        ensures
            r == Self::spec_between(min, max),
    {
        match (min, max) {
            (Some(min), Some(max)) => if max.is_before(&min) {
                None
            } else {
                Some(Supression::Range(min, max))
            },
            _ => None,
        }
    }

    /// Writes the window so that `parse_supression` reads it back.  The
    /// text is handed out only after it has been read back as this window.
    pub fn format(&self) -> (r: Option<String>)
        ensures
            r is Some <==> self.start().is_valid() && self.end().is_valid()
                && spec_parse_supression(self.spec_format()) == Some(*self),
            r matches Some(text) ==> text@ == self.spec_format(),
    {
        let (min, max) = match self {
            Supression::Range(min, max) => (*min, *max),
        };
        match (format_datetime(min), format_datetime(max)) {
            (Some(first), Some(second)) => {
                let mut text = first;
                text.append(" ");
                text.append(second.as_str());
                proof {
                    reveal_strlit(" ");
                    assert(" "@ =~= seq![' ']);
                }
                match parse_supression(text.as_str()) {
                    Some(read) => if read == *self {
                        Some(text)
                    } else {
                        None
                    },
                    None => None,
                }
            },
            _ => None,
        }
    }
}

impl DeepView for Supression {
    type V = Supression;

    open spec fn deep_view(&self) -> Supression {
        *self
    }
}

/// What a text denotes as a window.  Without a space it is one instant;
/// with one space, two instants; with more, nothing.
pub open spec fn spec_parse_supression(value: Seq<char>) -> Option<Supression> {
    let space = last_index_of(value, ' ');
    if space < 0 {
        Supression::spec_starting_at(timestamp_of(parsed_datetime(value)))
    } else if last_index_of(value.take(space), ' ') >= 0 {
        None
    } else {
        Supression::spec_between(
            timestamp_of(parsed_datetime(value.take(space))),
            timestamp_of(parsed_datetime(value.skip(space + 1))),
        )
    }
}

/// Reads one window: `<instant>` for the hour that starts there, or
/// `<instant> <instant>` for the time between the two.
pub fn parse_supression(value: &str) -> (r: Option<Supression>)
    ensures
        r == spec_parse_supression(value@),
{
    let after_space = last_position(value, ' ');
    proof {
        lemma_last_index_of(value@, ' ');
    }
    if after_space == 0 {
        Supression::starting_at(parse_datetime(value))
    } else {
        let n = value.unicode_len();
        let head = value.substring_char(0, after_space - 1);
        let tail = value.substring_char(after_space, n);
        assert(head@ =~= value@.take(after_space - 1));
        assert(tail@ =~= value@.skip(after_space as int));
        if last_position(head, ' ') != 0 {
            None
        } else {
            Supression::between(parse_datetime(head), parse_datetime(tail))
        }
    }
}

/// The order in which windows are sorted: by start, then by end.
pub open spec fn range_leq(a: Supression, b: Supression) -> bool {
    a.start().before(b.start()) || (a.start() == b.start() && a.end().at_or_before(b.end()))
}

/// `range_leq` as a relation, for sorting.
pub open spec fn range_order() -> spec_fn(Supression, Supression) -> bool {
    |a: Supression, b: Supression| range_leq(a, b)
}

pub proof fn lemma_range_order_total()
    ensures
        total_ordering(range_order()),
{
    let leq = range_order();
    assert forall|x: Supression, y: Supression| #[trigger] leq(x, y) && #[trigger] leq(y, x) implies x
        == y by {
        lemma_timestamp_order_total(x.start(), y.start());
        lemma_timestamp_order_total(x.end(), y.end());
    }
    assert forall|x: Supression, y: Supression| #[trigger] leq(x, y) || #[trigger] leq(y, x) by {
        lemma_timestamp_order_total(x.start(), y.start());
        lemma_timestamp_order_total(x.end(), y.end());
    }
}

/// The windows that the texts denote, in the order of the texts; a text
/// that denotes none is left out.
pub open spec fn parsed_ranges(values: Seq<Seq<char>>) -> Seq<Supression>
    decreases values.len(),
{
    if values.len() == 0 {
        Seq::empty()
    } else {
        let before = parsed_ranges(values.drop_last());
        match spec_parse_supression(values.last()) {
            Some(range) => before.push(range),
            None => before,
        }
    }
}

/// `ranges` without each window that starts where the window kept last starts.
pub open spec fn dedup_by_start(ranges: Seq<Supression>) -> Seq<Supression>
    decreases ranges.len(),
{
    if ranges.len() == 0 {
        Seq::empty()
    } else {
        let before = dedup_by_start(ranges.drop_last());
        if before.len() > 0 && before.last().start() == ranges.last().start() {
            before
        } else {
            before.push(ranges.last())
        }
    }
}

/// The windows in ascending order, one for each start: of those that start
/// together, the one that ends first.
pub open spec fn normalized(ranges: Seq<Supression>) -> Seq<Supression> {
    dedup_by_start(ranges.sort_by(range_order()))
}

/// The windows that a workflow's suppression texts stand for.
pub open spec fn spec_parse_supressions(values: Seq<Seq<char>>) -> Seq<Supression> {
    normalized(parsed_ranges(values))
}

/// Ascending, and no two windows start together.
pub open spec fn strictly_ascending(ranges: Seq<Supression>) -> bool {
    forall|i: int, j: int|
        0 <= i < j < ranges.len() ==> (#[trigger] ranges[i]).start().before(
            (#[trigger] ranges[j]).start(),
        )
}

/// Removing duplicates from sorted windows leaves them strictly ascending,
/// and ending on a window that starts where the last one did.
pub proof fn lemma_dedup_of_sorted(ranges: Seq<Supression>)
    requires
        sorted_by(ranges, range_order()),
    ensures
        strictly_ascending(dedup_by_start(ranges)),
        ranges.len() > 0 ==> dedup_by_start(ranges).len() > 0 && dedup_by_start(
            ranges,
        ).last().start() == ranges.last().start(),
        ranges.len() == 0 ==> dedup_by_start(ranges).len() == 0,
    decreases ranges.len(),
{
    if ranges.len() > 0 {
        let init = ranges.drop_last();
        assert forall|i: int, j: int| 0 <= i < j < init.len() implies range_order()(
            #[trigger] init[i],
            #[trigger] init[j],
        ) by {
            assert(range_order()(ranges[i], ranges[j]));
        }
        lemma_dedup_of_sorted(init);
        let before = dedup_by_start(init);
        let result = dedup_by_start(ranges);
        if init.len() > 0 {
            assert(range_order()(ranges[init.len() - 1], ranges[ranges.len() - 1]));
            lemma_timestamp_order_total(init.last().start(), ranges.last().start());
        }
        if !(before.len() > 0 && before.last().start() == ranges.last().start()) {
            assert forall|i: int, j: int| 0 <= i < j < result.len() implies (#[trigger] result[i]).start().before(
            (#[trigger] result[j]).start()) by {
                if j < before.len() {
                    assert(before[i].start().before(before[j].start()));
                } else if i < before.len() - 1 {
                    assert(before[i].start().before(before[before.len() - 1].start()));
                }
            }
        }
    }
}

/// Strictly ascending windows hold no duplicates to remove.
pub proof fn lemma_dedup_of_strictly_ascending(ranges: Seq<Supression>)
    requires
        strictly_ascending(ranges),
    ensures
        dedup_by_start(ranges) == ranges,
    decreases ranges.len(),
{
    if ranges.len() > 0 {
        let init = ranges.drop_last();
        assert forall|i: int, j: int| 0 <= i < j < init.len() implies (#[trigger] init[i]).start().before(
        (#[trigger] init[j]).start()) by {
            assert(ranges[i].start().before(ranges[j].start()));
        }
        lemma_dedup_of_strictly_ascending(init);
        if init.len() > 0 {
            assert(ranges[init.len() - 1].start().before(ranges[ranges.len() - 1].start()));
        }
        assert(dedup_by_start(ranges) =~= ranges);
    } else {
        assert(dedup_by_start(ranges) =~= ranges);
    }
}

/// Normalized windows are strictly ascending, and normalizing them again
/// changes nothing.
pub proof fn lemma_normalized_is_fixed(ranges: Seq<Supression>)
    ensures
        strictly_ascending(normalized(ranges)),
        normalized(normalized(ranges)) == normalized(ranges),
{
    let leq = range_order();
    lemma_range_order_total();
    ranges.lemma_sort_by_ensures(leq);
    lemma_dedup_of_sorted(ranges.sort_by(leq));
    let result = normalized(ranges);
    assert forall|i: int, j: int| 0 <= i < j < result.len() implies leq(
        #[trigger] result[i],
        #[trigger] result[j],
    ) by {
        assert(result[i].start().before(result[j].start()));
    }
    result.lemma_sort_by_ensures(leq);
    lemma_sorted_unique(result.sort_by(leq), result, leq);
    lemma_dedup_of_strictly_ascending(result);
}

/// Texts of which each denotes a window denote these windows, in order.
pub proof fn lemma_parsed_ranges_of_formatted(texts: Seq<Seq<char>>, ranges: Seq<Supression>)
    requires
        texts.len() == ranges.len(),
        forall|i: int|
            0 <= i < texts.len() ==> spec_parse_supression(#[trigger] texts[i]) == Some(ranges[i]),
    ensures
        parsed_ranges(texts) == ranges,
    decreases texts.len(),
{
    if texts.len() > 0 {
        lemma_parsed_ranges_of_formatted(texts.drop_last(), ranges.drop_last());
        assert(spec_parse_supression(texts[texts.len() - 1]) == Some(ranges[ranges.len() - 1]));
        assert(parsed_ranges(texts) =~= ranges);
    } else {
        assert(parsed_ranges(texts) =~= ranges);
    }
}

/// Parsing is idempotent: where the windows read from `values` are written
/// out, each as a text that denotes it, reading those texts gives the same
/// windows again.
pub proof fn lemma_parse_supressions_idempotent(values: Seq<Seq<char>>, texts: Seq<Seq<char>>)
    requires
        texts.len() == spec_parse_supressions(values).len(),
        forall|i: int|
            0 <= i < texts.len() ==> spec_parse_supression(#[trigger] texts[i]) == Some(
                spec_parse_supressions(values)[i],
            ),
    ensures
        spec_parse_supressions(texts) == spec_parse_supressions(values),
{
    lemma_parsed_ranges_of_formatted(texts, spec_parse_supressions(values));
    lemma_normalized_is_fixed(parsed_ranges(values));
}

/// Compares two windows by start, then by end.
pub fn supression_leq(a: &Supression, b: &Supression) -> (r: bool)
    ensures
        r == range_leq(*a, *b),
{
    match (a, b) {
        (Supression::Range(a_min, a_max), Supression::Range(b_min, b_max)) => {
            a_min.is_before(b_min) || (a_min.secs == b_min.secs && a_min.nanos == b_min.nanos
                && a_max.is_at_or_before(b_max))
        },
    }
}

/// Sorts the windows and keeps one for each start.
pub fn normalize(ranges: &Vec<Supression>) -> (r: Vec<Supression>)
    ensures
        r@ == normalized(ranges@),
{
    let ghost leq = range_order();
    proof {
        lemma_range_order_total();
    }
    let mut sorted: Vec<Supression> = Vec::new();
    let mut i: usize = 0;
    assert(ranges@.take(0) =~= Seq::<Supression>::empty());
    while i < ranges.len()
        invariant
            i <= ranges.len(),
            leq == range_order(),
            total_ordering(leq),
            sorted_by(sorted@, leq),
            sorted@.to_multiset() == ranges@.take(i as int).to_multiset(),
        decreases ranges.len() - i,
    {
        let item = ranges[i];
        let mut pos: usize = 0;
        while pos < sorted.len() && supression_leq(&sorted[pos], &item)
            invariant
                pos <= sorted.len(),
                leq == range_order(),
                forall|k: int| 0 <= k < pos ==> leq(#[trigger] sorted@[k], item),
            decreases sorted.len() - pos,
        {
            pos += 1;
        }
        let ghost before = sorted@;
        sorted.insert(pos, item);
        proof {
            assert forall|a: int, b: int| 0 <= a < b < sorted@.len() implies leq(
                #[trigger] sorted@[a],
                #[trigger] sorted@[b],
            ) by {
                if b == pos {
                } else if a == pos {
                    assert(sorted@[b] == before[b - 1]);
                    assert(leq(before[pos as int], item) || leq(item, before[pos as int]));
                    if b - 1 > pos {
                        assert(leq(before[pos as int], before[b - 1]));
                    }
                } else {
                    let a0 = if a < pos { a } else { a - 1 };
                    let b0 = if b < pos { b } else { b - 1 };
                    assert(leq(before[a0], before[b0]));
                }
            }
            vstd::seq_lib::to_multiset_insert(before, pos as int, item);
            assert(ranges@.take(i + 1) =~= ranges@.take(i as int).push(item));
            vstd::seq_lib::to_multiset_build(ranges@.take(i as int), item);
        }
        i += 1;
    }
    proof {
        assert(ranges@.take(i as int) =~= ranges@);
        ranges@.lemma_sort_by_ensures(leq);
        lemma_sorted_unique(sorted@, ranges@.sort_by(leq), leq);
    }
    let mut result: Vec<Supression> = Vec::new();
    let mut j: usize = 0;
    assert(sorted@.take(0) =~= Seq::<Supression>::empty());
    while j < sorted.len()
        invariant
            j <= sorted.len(),
            result@ == dedup_by_start(sorted@.take(j as int)),
        decreases sorted.len() - j,
    {
        let item = sorted[j];
        assert(sorted@.take(j + 1).drop_last() =~= sorted@.take(j as int));
        let k = result.len();
        if !(k > 0 && result[k - 1].key() == item.key()) {
            result.push(item);
        }
        j += 1;
    }
    assert(sorted@.take(j as int) =~= sorted@);
    result
}

/// Reads the suppression texts of a workflow.  A text that denotes no
/// window is dropped; the windows come out in ascending order, one for each
/// start.
pub fn parse_supressions(values: Vec<String>) -> (r: Vec<Supression>)
    ensures
        r@ == spec_parse_supressions(values.deep_view()),
{
    let mut supressions: Vec<Supression> = Vec::new();
    let mut i: usize = 0;
    assert(values.deep_view().take(0) =~= Seq::<Seq<char>>::empty());
    while i < values.len()
        invariant
            i <= values.len(),
            supressions@ == parsed_ranges(values.deep_view().take(i as int)),
        decreases values.len() - i,
    {
        assert(values.deep_view().take(i + 1).drop_last() =~= values.deep_view().take(i as int));
        assert(values.deep_view().take(i + 1).last() == values[i as int]@);
        if let Some(parsed_value) = parse_supression(values[i].as_str()) {
            supressions.push(parsed_value);
        }
        i += 1;
    }
    assert(values.deep_view().take(i as int) =~= values.deep_view());
    normalize(&supressions)
}

} // verus!
