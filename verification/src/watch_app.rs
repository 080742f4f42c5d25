//! The state of a watch window: the rows, and which of them changed a moment
//! ago.
//!
//! A row that changes is marked, and the mark fades within three tenths of a
//! second. The first value of a row is no change.
use vstd::prelude::*;
use crate::number::{dec_signed, dec_signed_text};
use crate::text::{same_text, views};
use crate::watch::Change;

verus! {

/// How long a change is marked, in microseconds.
pub const HIGHLIGHT_US: u64 = 300_000;

/// The most that a mark fades between two pictures, in microseconds.
pub const MAX_FADE_US: u64 = 100_000;

/// The strength of a fresh mark.
pub const FULL_MARK: u64 = 200;

/// A row of the window.
#[derive(Debug)]
pub struct WatchEntry {
    pub name: String,
    /// The value, which may take several lines.
    pub value: String,
    /// Whether the value tells of a failure.
    pub failed: bool,
}

/// The state of a watch window.
#[derive(Debug)]
pub struct WatchApp {
    pub entries: Vec<WatchEntry>,
    /// The value that each row was given last; empty where it had none.
    pub prev: Vec<String>,
    /// How long the mark of each row lasts, in microseconds.
    pub highlight_left: Vec<u64>,
}

/// The names of rows.
pub open spec fn entry_names(v: Seq<WatchEntry>) -> Seq<Seq<char>> {
    v.map_values(|e: WatchEntry| e.name@)
}

/// The values of rows.
pub open spec fn entry_values(v: Seq<WatchEntry>) -> Seq<Seq<char>> {
    v.map_values(|e: WatchEntry| e.value@)
}

/// How long the mark of a row lasts that is given the value `new`.
pub open spec fn mark_after(prev: Seq<char>, new: Seq<char>, left: u64) -> u64 {
    if prev.len() > 0 && prev != new {
        HIGHLIGHT_US
    } else {
        left
    }
}

/// How long a mark lasts after `dt` microseconds.
pub open spec fn faded(left: u64, dt: u64) -> u64 {
    let d = if dt < MAX_FADE_US {
        dt
    } else {
        MAX_FADE_US
    };
    if left < d {
        0
    } else {
        (left - d) as u64
    }
}

impl WatchApp {
    /// The lists of a window are of one length, and no mark lasts longer than a
    /// fresh one.
    pub open spec fn wf(self) -> bool {
        &&& self.prev@.len() == self.entries@.len()
        &&& self.highlight_left@.len() == self.entries@.len()
        &&& forall|i: int|
            0 <= i < self.highlight_left@.len() ==> #[trigger] self.highlight_left@[i]
                <= HIGHLIGHT_US
    }

    /// A window with a row for each name, without values.
    pub fn new(row_names: Vec<String>) -> (r: WatchApp)
        ensures
            r.wf(),
            entry_names(r.entries@) == views(row_names@),
            forall|i: int|
                0 <= i < r.entries@.len() ==> {
                    &&& (#[trigger] r.entries@[i]).value@.len() == 0
                    &&& !r.entries@[i].failed
                    &&& r.prev@[i]@.len() == 0
                    &&& r.highlight_left@[i] == 0
                },
    {
        let mut entries: Vec<WatchEntry> = Vec::new();
        let mut prev: Vec<String> = Vec::new();
        let mut highlight_left: Vec<u64> = Vec::new();
        let mut i: usize = 0;
        while i < row_names.len()
            invariant
                i <= row_names@.len(),
                entries@.len() == i,
                prev@.len() == i,
                highlight_left@.len() == i,
                forall|k: int|
                    0 <= k < i ==> {
                        &&& (#[trigger] entries@[k]).name@ == row_names@[k]@
                        &&& entries@[k].value@.len() == 0
                        &&& !entries@[k].failed
                        &&& prev@[k]@.len() == 0
                        &&& highlight_left@[k] == 0
                    },
            decreases row_names@.len() - i,
        {
            entries.push(
                WatchEntry {
                    name: String::from_str(row_names[i].as_str()),
                    value: String::new(),
                    failed: false,
                },
            );
            prev.push(String::new());
            highlight_left.push(0);
            i += 1;
        }
        assert(entry_names(entries@) =~= views(row_names@));
        assert forall|k: int| 0 <= k < i implies #[trigger] highlight_left@[k] <= HIGHLIGHT_US by {
            assert(entries@[k].value@.len() == 0);
        }
        let r: WatchApp = WatchApp { entries, prev, highlight_left };
        assert forall|k: int| 0 <= k < r.entries@.len() implies {
            &&& (#[trigger] r.entries@[k]).value@.len() == 0
            &&& !r.entries@[k].failed
            &&& r.prev@[k]@.len() == 0
            &&& r.highlight_left@[k] == 0
        } by {
            assert(r.entries@[k].name@ == row_names@[k]@);
        }
        r
    }

    /// Whether row `i` of `new` is row `i` of this window after the value
    /// `value` was given to it, which may tell of a failure.
    pub open spec fn given(self, new: WatchApp, i: int, value: Seq<char>, failed: bool) -> bool {
        &&& new.entries@[i].name == self.entries@[i].name
        &&& new.entries@[i].value@ == value
        &&& new.entries@[i].failed == failed
        &&& new.prev@[i]@ == value
        &&& new.highlight_left@[i] == mark_after(
            self.prev@[i]@,
            value,
            self.highlight_left@[i],
        )
    }

    /// Whether row `i` of `new` is row `i` of this window.
    pub open spec fn kept(self, new: WatchApp, i: int) -> bool {
        &&& new.entries@[i] == self.entries@[i]
        &&& new.prev@[i] == self.prev@[i]
        &&& new.highlight_left@[i] == self.highlight_left@[i]
    }

    /// Gives row `idx` a value; a row that differs from what it was is marked. A
    /// number without a row is passed over.
    pub fn set_value(&mut self, idx: usize, value: String)
        requires
            old(self).wf(),
        ensures
            final(self).wf(),
            final(self).entries@.len() == old(self).entries@.len(),
            forall|i: int|
                #![trigger final(self).entries@[i]]
                0 <= i < final(self).entries@.len() ==> if i == idx {
                    old(self).given(*final(self), i, value@, false)
                } else {
                    old(self).kept(*final(self), i)
                },
    {
        self.put(idx, value, false);
    }

    /// Takes a change of a row in: a value, or a failure. A number without a row is
    /// passed over.
    pub fn take(&mut self, change: Change<String>)
        requires
            old(self).wf(),
        ensures
            final(self).wf(),
            final(self).entries@.len() == old(self).entries@.len(),
            forall|i: int|
                #![trigger final(self).entries@[i]]
                0 <= i < final(self).entries@.len() ==> if i == change.row {
                    old(self).given(*final(self), i, change.text@, change.failed)
                } else {
                    old(self).kept(*final(self), i)
                },
    {
        self.put(change.row, change.text, change.failed);
    }

    fn put(&mut self, idx: usize, value: String, failed: bool)
        requires
            old(self).wf(),
        ensures
            final(self).wf(),
            final(self).entries@.len() == old(self).entries@.len(),
            forall|i: int|
                #![trigger final(self).entries@[i]]
                0 <= i < final(self).entries@.len() ==> if i == idx {
                    old(self).given(*final(self), i, value@, failed)
                } else {
                    old(self).kept(*final(self), i)
                },
    {
        if idx >= self.entries.len() {
            return ;
        }
        let ghost start = *self;
        let old_text: String = self.prev.remove(idx);
        if old_text.as_str().unicode_len() > 0 && !same_text(old_text.as_str(), value.as_str()) {
            self.highlight_left.set(idx, HIGHLIGHT_US);
        }
        self.prev.insert(idx, String::from_str(value.as_str()));
        let mut entry: WatchEntry = self.entries.remove(idx);
        entry.value = value;
        entry.failed = failed;
        self.entries.insert(idx, entry);
    }

    /// Gives the rows their values, in order. Values without a row are passed
    /// over; rows without a value stay as they are.
    pub fn set_values(&mut self, values: Vec<String>)
        requires
            old(self).wf(),
        ensures
            final(self).wf(),
            final(self).entries@.len() == old(self).entries@.len(),
            forall|i: int|
                #![trigger final(self).entries@[i]]
                0 <= i < final(self).entries@.len() ==> if i < values@.len() {
                    old(self).given(*final(self), i, values@[i]@, false)
                } else {
                    old(self).kept(*final(self), i)
                },
    {
        let ghost start = *self;
        let mut k: usize = 0;
        while k < values.len()
            invariant
                k <= values@.len(),
                self.wf(),
                self.entries@.len() == start.entries@.len(),
                forall|i: int|
                    #![trigger self.entries@[i]]
                    0 <= i < self.entries@.len() ==> if i < k {
                        start.given(*self, i, values@[i]@, false)
                    } else {
                        start.kept(*self, i)
                    },
            decreases values@.len() - k,
        {
            let ghost before = *self;
            self.set_value(k, String::from_str(values[k].as_str()));
            assert forall|i: int|
                #![trigger self.entries@[i]]
                0 <= i < self.entries@.len() implies if i < k + 1 {
                start.given(*self, i, values@[i]@, false)
            } else {
                start.kept(*self, i)
            } by {
                assert(before.entries@[i] == before.entries@[i]);
            }
            k += 1;
        }
    }

    /// Lets the marks fade by `dt` microseconds, a tenth of a second at most.
    pub fn fade(&mut self, dt: u64)
        requires
            old(self).wf(),
        ensures
            final(self).wf(),
            final(self).entries == old(self).entries,
            final(self).prev == old(self).prev,
            forall|i: int|
                0 <= i < final(self).highlight_left@.len()
                    ==> #[trigger] final(self).highlight_left@[i] == faded(
                    old(self).highlight_left@[i],
                    dt,
                ),
    {
        let ghost start = self.highlight_left@;
        let d: u64 = if dt < MAX_FADE_US {
            dt
        } else {
            MAX_FADE_US
        };
        let mut i: usize = 0;
        while i < self.highlight_left.len()
            invariant
                i <= self.highlight_left@.len(),
                self.highlight_left@.len() == start.len(),
                self.entries == old(self).entries,
                self.prev == old(self).prev,
                d == if dt < MAX_FADE_US {
                    dt
                } else {
                    MAX_FADE_US
                },
                forall|k: int| 0 <= k < start.len() ==> #[trigger] start[k] <= HIGHLIGHT_US,
                forall|k: int|
                    0 <= k < start.len() ==> #[trigger] self.highlight_left@[k] == if k < i {
                        faded(start[k], dt)
                    } else {
                        start[k]
                    },
            decreases self.highlight_left@.len() - i,
        {
            let left: u64 = self.highlight_left[i];
            assert(left == start[i as int]);
            self.highlight_left.set(
                i,
                if left < d {
                    0
                } else {
                    left - d
                },
            );
            i += 1;
        }
    }

    /// The strength of the mark of row `idx`: nothing where there is none, and
    /// in proportion to the time that it lasts.
    pub fn mark(&self, idx: usize) -> (r: u8)
        requires
            self.wf(),
            idx < self.entries@.len(),
        ensures
            r == self.highlight_left@[idx as int] * FULL_MARK / HIGHLIGHT_US as int,
    {
        let left: u64 = self.highlight_left[idx];
        (left * FULL_MARK / HIGHLIGHT_US) as u8
    }
}

/// The first value of a row leaves no mark, the same value again leaves none
/// either, and any other value does.
pub proof fn law_only_changes_are_marked(first: Seq<char>, next: Seq<char>)
    ensures
        mark_after(Seq::empty(), first, 0) == 0,
        mark_after(first, first, 0) == 0,
        first.len() > 0 && next != first ==> mark_after(first, next, 0) == HIGHLIGHT_US,
{
}

/// A mark is gone after three tenths of a second.
pub proof fn law_marks_fade(left: u64, a: u64, b: u64, c: u64)
    requires
        left <= HIGHLIGHT_US,
        a >= MAX_FADE_US,
        b >= MAX_FADE_US,
        c >= MAX_FADE_US,
    ensures
        faded(faded(faded(left, a), b), c) == 0,
{
}

// ---------------------------------------------------------------------------
// The demonstration
// ---------------------------------------------------------------------------

/// What the demonstration shows at a moment.
#[derive(Debug)]
pub struct DemoValues {
    /// Two positions and a reference, as texts.
    pub position: String,
    pub electrical: String,
    pub reference: String,
    pub rotations: i64,
    pub loops: i64,
    /// Seconds in state changes.
    pub state: usize,
    pub adc_a: i64,
    pub adc_b: i64,
}

/// The name of a state of the demonstration.
pub open spec fn demo_state(k: usize) -> Seq<char> {
    if k % 3 == 0 {
        "INIT"@
    } else if k % 3 == 1 {
        "RUN"@
    } else {
        "FAULT"@
    }
}

/// The names of the demonstration's rows.
pub open spec fn demo_names() -> Seq<Seq<char>> {
    seq![
        "ENC_1_POS_SENSOR"@,
        "ENC_1_POS_SENSOR.position"@,
        "ENC_1_POS_SENSOR.rotations"@,
        "theta_ref"@,
        "loop_cnt"@,
        "state_machine"@,
        "adc_buf[0..4]"@,
        "fault_flags"@,
    ]
}

/// The values of the demonstration's rows.
pub open spec fn demo_values(v: DemoValues) -> Seq<Seq<char>> {
    seq![
        "positionStruct = {\n    position: "@ + v.position@ + " (float)\n    ElecPosition: "@
            + v.electrical@ + " (float)\n    rotations: "@ + dec_signed(v.rotations as int)
            + " (int)\n}"@,
        v.position@ + " (float)"@,
        dec_signed(v.rotations as int) + " (int)"@,
        v.reference@ + " (float)"@,
        dec_signed(v.loops as int) + " (uint32_t)"@,
        demo_state(v.state) + " (enum)"@,
        "["@ + dec_signed(v.adc_a as int) + ", "@ + dec_signed(v.adc_b as int)
            + ", 1287, 1303] (uint16_t[4])"@,
        "0x00000000 (uint32_t)"@,
    ]
}

fn with_suffix(a: &str, b: &str) -> (r: String)
    ensures
        r@ == a@ + b@,
{
    let mut s: String = String::from_str(a);
    s.append(b);
    s
}

/// The rows of the demonstration at a moment: the names and the values.
pub fn demo_rows(v: &DemoValues) -> (r: (Vec<String>, Vec<String>))
    ensures
        views(r.0@) == demo_names(),
        views(r.1@) == demo_values(*v),
{
    let rotations: String = dec_signed_text(v.rotations);
    let mut structure: String = String::from_str("positionStruct = {\n    position: ");
    structure.append(v.position.as_str());
    structure.append(" (float)\n    ElecPosition: ");
    structure.append(v.electrical.as_str());
    structure.append(" (float)\n    rotations: ");
    structure.append(rotations.as_str());
    structure.append(" (int)\n}");
    let state: &str = if v.state % 3 == 0 {
        "INIT"
    } else if v.state % 3 == 1 {
        "RUN"
    } else {
        "FAULT"
    };
    let mut adc: String = String::from_str("[");
    adc.append(dec_signed_text(v.adc_a).as_str());
    adc.append(", ");
    adc.append(dec_signed_text(v.adc_b).as_str());
    adc.append(", 1287, 1303] (uint16_t[4])");
    let mut row_names: Vec<String> = Vec::new();
    row_names.push(String::from_str("ENC_1_POS_SENSOR"));
    row_names.push(String::from_str("ENC_1_POS_SENSOR.position"));
    row_names.push(String::from_str("ENC_1_POS_SENSOR.rotations"));
    row_names.push(String::from_str("theta_ref"));
    row_names.push(String::from_str("loop_cnt"));
    row_names.push(String::from_str("state_machine"));
    row_names.push(String::from_str("adc_buf[0..4]"));
    row_names.push(String::from_str("fault_flags"));
    let mut values: Vec<String> = Vec::new();
    values.push(structure);
    values.push(with_suffix(v.position.as_str(), " (float)"));
    values.push(with_suffix(rotations.as_str(), " (int)"));
    values.push(with_suffix(v.reference.as_str(), " (float)"));
    values.push(with_suffix(dec_signed_text(v.loops).as_str(), " (uint32_t)"));
    values.push(with_suffix(state, " (enum)"));
    values.push(adc);
    values.push(String::from_str("0x00000000 (uint32_t)"));
    assert(views(row_names@) =~= demo_names());
    assert(views(values@) =~= demo_values(*v));
    (row_names, values)
}

impl WatchApp {
    /// The window of the demonstration, filled for the first time.
    pub fn new_demo(v: &DemoValues) -> (r: WatchApp)
        ensures
            r.wf(),
            entry_names(r.entries@) == demo_names(),
            entry_values(r.entries@) == demo_values(*v),
            forall|i: int|
                0 <= i < r.highlight_left@.len() ==> #[trigger] r.highlight_left@[i] == 0,
    {
        let (row_names, values) = demo_rows(v);
        let ghost texts = views(values@);
        assert(texts.len() == 8);
        let mut app: WatchApp = WatchApp::new(row_names);
        let ghost start = app;
        assert(entry_names(start.entries@).len() == start.entries@.len());
        assert(start.entries@.len() == 8);
        let ghost given = values@;
        app.set_values(values);
        assert forall|i: int|
            #![trigger app.entries@[i]]
            0 <= i < app.entries@.len() implies app.entries@[i].name@
            == demo_names()[i] && app.entries@[i].value@ == texts[i] && app.highlight_left@[i]
            == 0 by {
            assert(start.entries@[i].value@.len() == 0);
            assert(entry_names(start.entries@)[i] == start.entries@[i].name@);
            assert(texts[i] == given[i]@);
            assert(start.given(app, i, given[i]@, false));
        }
        assert(entry_names(app.entries@) =~= demo_names());
        assert(entry_values(app.entries@) =~= demo_values(*v));
        app
    }

    /// Gives the rows of the demonstration their values at a moment.
    pub fn demo_tick(&mut self, v: &DemoValues)
        requires
            old(self).wf(),
        ensures
            final(self).wf(),
            final(self).entries@.len() == old(self).entries@.len(),
            forall|i: int|
                #![trigger final(self).entries@[i]]
                0 <= i < final(self).entries@.len() ==> if i < 8 {
                    old(self).given(*final(self), i, demo_values(*v)[i], false)
                } else {
                    old(self).kept(*final(self), i)
                },
    {
        let (row_names, values) = demo_rows(v);
        let ghost texts = views(values@);
        let ghost start = *self;
        let ghost given = values@;
        assert(texts.len() == 8);
        self.set_values(values);
        assert forall|i: int|
            #![trigger self.entries@[i]]
            0 <= i < self.entries@.len() implies if i < 8 {
            start.given(*self, i, demo_values(*v)[i], false)
        } else {
            start.kept(*self, i)
        } by {
            if i < 8 {
                assert(texts[i] == given[i]@);
            }
        }
    }
}

/// A window shows in a row what was last given to it, in red where that was a
/// failure; the other rows stay as they are. A row is marked where the value is not
/// the one that it showed before.
pub proof fn law_windows_show_what_they_are_given(
    old_app: WatchApp,
    new_app: WatchApp,
    i: int,
    value: Seq<char>,
    failed: bool,
)
    ensures
        old_app.given(new_app, i, value, failed) ==> {
            &&& new_app.entries@[i].value@ == value
            &&& new_app.entries@[i].failed == failed
            &&& new_app.entries@[i].name == old_app.entries@[i].name
            &&& new_app.prev@[i]@ == value
            &&& old_app.prev@[i]@.len() > 0 && old_app.prev@[i]@ != value
                ==> new_app.highlight_left@[i] == 300_000
            &&& old_app.prev@[i]@.len() == 0 || old_app.prev@[i]@ == value
                ==> new_app.highlight_left@[i] == old_app.highlight_left@[i]
        },
        old_app.kept(new_app, i) ==> new_app.entries@[i] == old_app.entries@[i]
            && new_app.highlight_left@[i] == old_app.highlight_left@[i],
{
}

/// A mark gets weaker by the time that has passed, of which a tenth of a second
/// counts at the most for one picture, until it is gone.
pub proof fn law_marks_last(left: u64, dt: u64)
    ensures
        dt <= 100_000 && dt <= left ==> faded(left, dt) == left - dt,
        dt >= 100_000 && left >= 100_000 ==> faded(left, dt) == left - 100_000,
        dt >= left && left <= 100_000 ==> faded(left, dt) == 0,
{
}

}
