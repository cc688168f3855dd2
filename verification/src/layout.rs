//! Running a verification routine against the layout that the compiler
//! produced: every check is held against the true offset and size of its
//! field, and the declared size against the true size of the structure.

use vstd::prelude::*;
use vstd::string::*;
use crate::synth::{Check, CheckView, Routine, RoutineView};

verus! {

/// Where a field really lies: its offset in the structure and its size, in bytes.
#[derive(Debug, Clone, Copy, PartialEq, Eq, Structural)]
pub struct FieldLayout {
    pub offset: u64,
    pub size: u64,
}

/// The true layout of a structure: its size and, by index, each field's place.
#[derive(Debug, Clone, PartialEq, Eq)]
pub struct Layout {
    pub size: u64,
    pub fields: Vec<FieldLayout>,
}

/// The mathematical value of a [`Layout`].
pub ghost struct LayoutView {
    pub size: u64,
    pub fields: Seq<FieldLayout>,
}

impl View for Layout {
    type V = LayoutView;

    open spec fn view(&self) -> LayoutView {
        LayoutView { size: self.size, fields: self.fields@ }
    }
}

/// One failed comparison. `check` is the position of the failed check in the
/// routine; `expected` is the declared value and `actual` the true one.
#[derive(Debug, Clone, Copy, PartialEq, Eq, Structural)]
#[allow(inconsistent_fields)]
pub enum Failure {
    Start { check: usize, expected: u64, actual: u64 },
    End { check: usize, expected: u64, actual: i128 },
    Size { expected: u64, actual: u64 },
}

/// The last byte that a field occupies: its size plus its offset, less one.
pub open spec fn true_end(place: FieldLayout) -> int {
    place.size + place.offset - 1
}

/// The declared start equals the field's true offset.
pub open spec fn start_holds(check: CheckView, place: FieldLayout) -> bool {
    check.range.start == place.offset
}

/// The declared end equals the field's true last byte.
pub open spec fn end_holds(check: CheckView, place: FieldLayout) -> bool {
    check.range.end == true_end(place)
}

/// The failures of the check at position `index`: the start comparison and
/// the end comparison are made independently of each other.
pub open spec fn check_failures(index: usize, check: CheckView, place: FieldLayout) -> Seq<
    Failure,
> {
    let start = if start_holds(check, place) {
        Seq::<Failure>::empty()
    } else {
        seq![Failure::Start { check: index, expected: check.range.start, actual: place.offset }]
    };
    let end = if end_holds(check, place) {
        Seq::<Failure>::empty()
    } else {
        seq![
            Failure::End { check: index, expected: check.range.end, actual: true_end(place) as i128 },
        ]
    };
    start + end
}

/// Whether the layout has a place for the field of every check.
pub open spec fn covers(places: Seq<FieldLayout>, checks: Seq<CheckView>) -> bool {
    forall|k: int| 0 <= k < checks.len() ==> (#[trigger] checks[k]).field < places.len()
}

/// The failures of all field checks, in the order of the checks.
pub open spec fn field_failures(checks: Seq<CheckView>, places: Seq<FieldLayout>) -> Seq<Failure>
    decreases checks.len(),
{
    if checks.len() == 0 {
        Seq::empty()
    } else {
        field_failures(checks.drop_last(), places) + check_failures(
            (checks.len() - 1) as usize,
            checks.last(),
            places[checks.last().field as int],
        )
    }
}

/// The failure of the size check, if the declared size differs from the true one.
pub open spec fn size_failures(declared: u64, actual: u64) -> Seq<Failure> {
    if declared == actual {
        Seq::empty()
    } else {
        seq![Failure::Size { expected: declared, actual }]
    }
}

/// Every failure of the routine on the layout: the field checks in order,
/// then the size check.
pub open spec fn failures(routine: RoutineView, layout: LayoutView) -> Seq<Failure> {
    field_failures(routine.checks, layout.fields) + size_failures(routine.size, layout.size)
}

/// Whether every declared value equals the true one.
pub open spec fn matches(routine: RoutineView, layout: LayoutView) -> bool {
    &&& routine.size == layout.size
    &&& forall|k: int|
        0 <= k < routine.checks.len() ==> {
            let check = #[trigger] routine.checks[k];
            start_holds(check, layout.fields[check.field as int]) && end_holds(
                check,
                layout.fields[check.field as int],
            )
        }
}

/// The text that names a failure: which side failed, and of what.
pub open spec fn description(routine: RoutineView, failure: Failure) -> Option<Seq<char>> {
    match failure {
        Failure::Start { check, .. } => if check < routine.checks.len() {
            Some("start of "@ + routine.checks[check as int].label)
        } else {
            None
        },
        Failure::End { check, .. } => if check < routine.checks.len() {
            Some("end of "@ + routine.checks[check as int].label)
        } else {
            None
        },
        Failure::Size { .. } => Some("size of "@ + routine.structure),
    }
}

/// Field checks that all hold report nothing.
proof fn lemma_field_failures_none(checks: Seq<CheckView>, places: Seq<FieldLayout>)
    requires
        forall|k: int|
            0 <= k < checks.len() ==> start_holds(
                #[trigger] checks[k],
                places[checks[k].field as int],
            ) && end_holds(checks[k], places[checks[k].field as int]),
    ensures
        field_failures(checks, places) == Seq::<Failure>::empty(),
    decreases checks.len(),
{
    if checks.len() > 0 {
        let rest = checks.drop_last();
        assert forall|k: int| 0 <= k < rest.len() implies start_holds(
            #[trigger] rest[k],
            places[rest[k].field as int],
        ) && end_holds(rest[k], places[rest[k].field as int]) by {
            assert(rest[k] == checks[k]);
        }
        lemma_field_failures_none(rest, places);
        assert(start_holds(checks.last(), places[checks.last().field as int]));
        assert(field_failures(checks, places) =~= Seq::<Failure>::empty());
    }
}

/// A field check that does not hold is among the reported failures.
proof fn lemma_field_failure_present(checks: Seq<CheckView>, places: Seq<FieldLayout>, k: int)
    requires
        checks.len() <= usize::MAX,
        0 <= k < checks.len(),
    ensures
        !start_holds(checks[k], places[checks[k].field as int]) ==> field_failures(
            checks,
            places,
        ).contains(
            Failure::Start {
                check: k as usize,
                expected: checks[k].range.start,
                actual: places[checks[k].field as int].offset,
            },
        ),
        !end_holds(checks[k], places[checks[k].field as int]) ==> field_failures(
            checks,
            places,
        ).contains(
            Failure::End {
                check: k as usize,
                expected: checks[k].range.end,
                actual: true_end(places[checks[k].field as int]) as i128,
            },
        ),
    decreases checks.len(),
{
    let rest = checks.drop_last();
    let before = field_failures(rest, places);
    let place = places[checks[k].field as int];
    let all = field_failures(checks, places);
    if k == checks.len() - 1 {
        let own = check_failures(k as usize, checks[k], place);
        assert(all == before + own);
        if !start_holds(checks[k], place) {
            assert(all[before.len() as int] == own[0]);
        }
        if !end_holds(checks[k], place) {
            let at = own.len() - 1;
            assert(all[before.len() + at] == own[at]);
        }
    } else {
        lemma_field_failure_present(rest, places, k);
        assert(rest[k] == checks[k]);
        if !start_holds(checks[k], place) {
            let wanted = Failure::Start {
                check: k as usize,
                expected: checks[k].range.start,
                actual: place.offset,
            };
            let j = choose|j: int| 0 <= j < before.len() && before[j] == wanted;
            assert(all[j] == wanted);
        }
        if !end_holds(checks[k], place) {
            let wanted = Failure::End {
                check: k as usize,
                expected: checks[k].range.end,
                actual: true_end(place) as i128,
            };
            let j = choose|j: int| 0 <= j < before.len() && before[j] == wanted;
            assert(all[j] == wanted);
        }
    }
}

/// A layout that matches every declared range and the declared size passes:
/// the routine reports no failure.
pub proof fn lemma_matching_layout_passes(routine: RoutineView, layout: LayoutView)
    requires
        matches(routine, layout),
    ensures
        failures(routine, layout) == Seq::<Failure>::empty(),
{
    lemma_field_failures_none(routine.checks, layout.fields);
    assert(failures(routine, layout) =~= Seq::<Failure>::empty());
}

/// A declared start that differs from the field's true offset is reported,
/// as a failure of that very check, with the declared and the true value,
/// and its description carries that check's label.
pub proof fn lemma_start_mismatch_reported(routine: RoutineView, layout: LayoutView, k: int)
    requires
        routine.checks.len() <= usize::MAX,
        0 <= k < routine.checks.len(),
        routine.checks[k].range.start != layout.fields[routine.checks[k].field as int].offset,
    ensures
        failures(routine, layout).contains(
            Failure::Start {
                check: k as usize,
                expected: routine.checks[k].range.start,
                actual: layout.fields[routine.checks[k].field as int].offset,
            },
        ),
        description(
            routine,
            Failure::Start {
                check: k as usize,
                expected: routine.checks[k].range.start,
                actual: layout.fields[routine.checks[k].field as int].offset,
            },
        ) == Some("start of "@ + routine.checks[k].label),
{
    lemma_field_failure_present(routine.checks, layout.fields, k);
    let found = field_failures(routine.checks, layout.fields);
    let wanted = Failure::Start {
        check: k as usize,
        expected: routine.checks[k].range.start,
        actual: layout.fields[routine.checks[k].field as int].offset,
    };
    let j = choose|j: int| 0 <= j < found.len() && found[j] == wanted;
    assert(failures(routine, layout)[j] == wanted);
}

/// A declared end that differs from the field's size plus its offset less
/// one is reported, whether or not the start of the same field matches.
pub proof fn lemma_end_mismatch_reported(routine: RoutineView, layout: LayoutView, k: int)
    requires
        routine.checks.len() <= usize::MAX,
        0 <= k < routine.checks.len(),
        routine.checks[k].range.end != true_end(layout.fields[routine.checks[k].field as int]),
    ensures
        failures(routine, layout).contains(
            Failure::End {
                check: k as usize,
                expected: routine.checks[k].range.end,
                actual: true_end(layout.fields[routine.checks[k].field as int]) as i128,
            },
        ),
        description(
            routine,
            Failure::End {
                check: k as usize,
                expected: routine.checks[k].range.end,
                actual: true_end(layout.fields[routine.checks[k].field as int]) as i128,
            },
        ) == Some("end of "@ + routine.checks[k].label),
{
    lemma_field_failure_present(routine.checks, layout.fields, k);
    let found = field_failures(routine.checks, layout.fields);
    let wanted = Failure::End {
        check: k as usize,
        expected: routine.checks[k].range.end,
        actual: true_end(layout.fields[routine.checks[k].field as int]) as i128,
    };
    let j = choose|j: int| 0 <= j < found.len() && found[j] == wanted;
    assert(failures(routine, layout)[j] == wanted);
}

/// A declared size that differs from the true size is reported, whatever the
/// field checks find.
pub proof fn lemma_size_mismatch_reported(routine: RoutineView, layout: LayoutView)
    requires
        routine.size != layout.size,
    ensures
        failures(routine, layout).contains(
            Failure::Size { expected: routine.size, actual: layout.size },
        ),
        failures(routine, layout).last() == (Failure::Size {
            expected: routine.size,
            actual: layout.size,
        }),
{
    let found = field_failures(routine.checks, layout.fields);
    assert(failures(routine, layout)[found.len() as int] == size_failures(
        routine.size,
        layout.size,
    )[0]);
}

impl Check {
    /// Holds this check, at position `index` of its routine, against the
    /// true place of its field.
    pub fn evaluate(&self, index: usize, place: FieldLayout) -> (r: Vec<Failure>)
        ensures
            r@ == check_failures(index, self@, place),
    {
        let mut found: Vec<Failure> = Vec::new();
        if self.range.start != place.offset {
            found.push(
                Failure::Start { check: index, expected: self.range.start, actual: place.offset },
            );
        }
        let end: i128 = place.size as i128 + place.offset as i128 - 1;
        if self.range.end as i128 != end {
            found.push(Failure::End { check: index, expected: self.range.end, actual: end });
        }
        proof {
            assert(found@ =~= check_failures(index, self@, place));
        }
        found
    }
}

impl Routine {
    /// Whether the layout has a place for the field of every check.
    pub fn fits(&self, layout: &Layout) -> (r: bool)
        ensures
            r == covers(layout@.fields, self@.checks),
    {
        let n: usize = self.checks.len();
        let places: usize = layout.fields.len();
        let mut k: usize = 0;
        while k < n
            invariant
                k <= n,
                n == self.checks@.len(),
                places == layout.fields@.len(),
                forall|j: int| 0 <= j < k ==> (#[trigger] self@.checks[j]).field < places,
            decreases n - k,
        {
            if self.checks[k].field >= places {
                proof {
                    assert(self@.checks[k as int].field >= places);
                }
                return false;
            }
            proof {
                assert(self@.checks[k as int] == self.checks@[k as int]@);
            }
            k = k + 1;
        }
        true
    }

    /// Runs every check against the layout and collects all failures: the
    /// field checks in order, then the size check.
    pub fn evaluate(&self, layout: &Layout) -> (r: Vec<Failure>)
        requires
            covers(layout@.fields, self@.checks),
        ensures
            r@ == failures(self@, layout@),
    {
        let mut found: Vec<Failure> = Vec::new();
        let n: usize = self.checks.len();
        let mut k: usize = 0;
        while k < n
            invariant
                k <= n,
                n == self.checks@.len(),
                covers(layout@.fields, self@.checks),
                found@ == field_failures(self@.checks.take(k as int), layout.fields@),
            decreases n - k,
        {
            proof {
                assert(self@.checks.take(k as int + 1).drop_last() =~= self@.checks.take(k as int));
                assert(self@.checks.take(k as int + 1).last() == self@.checks[k as int]);
                assert(self@.checks[k as int] == self.checks@[k as int]@);
            }
            let check = &self.checks[k];
            let mut more = check.evaluate(k, layout.fields[check.field]);
            found.append(&mut more);
            k = k + 1;
        }
        proof {
            assert(self@.checks.take(n as int) =~= self@.checks);
        }
        if self.size != layout.size {
            found.push(Failure::Size { expected: self.size, actual: layout.size });
        }
        proof {
            assert(found@ =~= failures(self@, layout@));
        }
        found
    }

    /// Runs the routine as a test would: it stops at the first failure.
    pub fn run(&self, layout: &Layout) -> (r: Option<Failure>)
        requires
            covers(layout@.fields, self@.checks),
        ensures
            r == if failures(self@, layout@).len() == 0 {
                None
            } else {
                Some(failures(self@, layout@)[0])
            },
    {
        let found = self.evaluate(layout);
        if found.len() == 0 {
            None
        } else {
            Some(found[0])
        }
    }

    /// The text that names what `failure` is about; `None` if the failure
    /// points at a check that this routine does not have.
    pub fn describe(&self, failure: &Failure) -> (r: Option<String>)
        ensures
            r is Some == description(self@, *failure) is Some,
            r is Some ==> r->Some_0@ == description(self@, *failure)->Some_0,
    {
        match failure {
            Failure::Start { check, .. } => {
                if *check < self.checks.len() {
                    let mut text = String::from_str("start of ");
                    text.append(self.checks[*check].label.as_str());
                    Some(text)
                } else {
                    None
                }
            },
            Failure::End { check, .. } => {
                if *check < self.checks.len() {
                    let mut text = String::from_str("end of ");
                    text.append(self.checks[*check].label.as_str());
                    Some(text)
                } else {
                    None
                }
            },
            Failure::Size { .. } => {
                let mut text = String::from_str("size of ");
                text.append(self.structure.as_str());
                Some(text)
            },
        }
    }
}

} // verus!
