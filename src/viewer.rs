use crate::midi::{MidiEvent, NoteMessage};
use vstd::prelude::*;

verus! {

/// A note drawn from `start` to `end` (device timestamps).
#[derive(Clone, Copy, Debug, PartialEq, Eq)]
pub struct NoteSpan {
    pub start: u64,
    pub end: u64,
    pub key: u8,
}

/// The notes of a stretch of events, laid out for drawing: every span, and
/// the lowest and highest key pressed (`255` and `0` when none was).
pub struct NoteLayout {
    pub spans: Vec<NoteSpan>,
    pub lowest: u8,
    pub highest: u8,
}

/// The notes still sounding (start time and key, oldest first), the spans
/// already closed, and the lowest and highest key pressed so far.
pub struct ScanState {
    pub open: Seq<(u64, u8)>,
    pub closed: Seq<NoteSpan>,
    pub lowest: u8,
    pub highest: u8,
}

/// `i` is the oldest open note of `key`.
pub open spec fn is_first_open(open: Seq<(u64, u8)>, key: u8, i: int) -> bool {
    &&& 0 <= i < open.len()
    &&& open[i].1 == key
    &&& forall|j: int| 0 <= j < i ==> open[j].1 != key
}

/// One event read: a note-on opens a note; a note-off closes the oldest open
/// note of its key, and is passed over when there is none.
pub open spec fn scan_step(s: ScanState, e: MidiEvent) -> ScanState {
    match e.input {
        NoteMessage::NoteOn { key, .. } => ScanState {
            open: s.open.push((e.time, key)),
            closed: s.closed,
            lowest: if key < s.lowest { key } else { s.lowest },
            highest: if key > s.highest { key } else { s.highest },
        },
        NoteMessage::NoteOff { key, .. } => if exists|i: int| is_first_open(s.open, key, i) {
            let i = choose|i: int| is_first_open(s.open, key, i);
            ScanState {
                open: s.open.remove(i),
                closed: s.closed.push(NoteSpan { start: s.open[i].0, end: e.time, key }),
                ..s
            }
        } else {
            s
        },
    }
}

/// The state after reading `events` in order.
pub open spec fn scan(events: Seq<MidiEvent>) -> ScanState
    decreases events.len(),
{
    if events.len() == 0 {
        ScanState { open: Seq::empty(), closed: Seq::empty(), lowest: 255, highest: 0 }
    } else {
        scan_step(scan(events.drop_last()), events.last())
    }
}

/// Every span of `events`: the closed ones in the order they closed, then the
/// notes still open, drawn up to `current_time`.
pub open spec fn spans_of(events: Seq<MidiEvent>, current_time: u64) -> Seq<NoteSpan> {
    let s = scan(events);
    s.closed + s.open.map_values(
        |o: (u64, u8)| NoteSpan { start: o.0, end: current_time, key: o.1 },
    )
}

/// Pairs the note-ons and note-offs of `notes` into spans, and finds the range
/// of keys pressed.
pub fn layout_notes(notes: &Vec<MidiEvent>, current_time: u64) -> (r: NoteLayout)
    ensures
        r.spans@ == spans_of(notes@, current_time),
        r.lowest == scan(notes@).lowest,
        r.highest == scan(notes@).highest,
{
    let mut open: Vec<(u64, u8)> = Vec::new();
    let mut closed: Vec<NoteSpan> = Vec::new();
    let mut lowest: u8 = 255;
    let mut highest: u8 = 0;
    let n = notes.len();
    let mut i: usize = 0;
    while i < n
        invariant
            i <= n,
            n == notes@.len(),
            scan(notes@.take(i as int)) == (ScanState {
                open: open@,
                closed: closed@,
                lowest,
                highest,
            }),
        decreases n - i,
    {
        let e = notes[i];
        proof {
            assert(notes@.take(i as int + 1).drop_last() =~= notes@.take(i as int));
            assert(notes@.take(i as int + 1).last() == e);
        }
        match e.input {
            NoteMessage::NoteOn { key, .. } => {
                open.push((e.time, key));
                if key < lowest {
                    lowest = key;
                }
                if key > highest {
                    highest = key;
                }
            },
            NoteMessage::NoteOff { key, .. } => {
                let ghost before = open@;
                let m = open.len();
                let mut j: usize = 0;
                while j < m && open[j].1 != key
                    invariant
                        j <= m,
                        m == open@.len(),
                        forall|k: int| 0 <= k < j ==> open@[k].1 != key,
                    decreases m - j,
                {
                    j = j + 1;
                }
                if j < m {
                    proof {
                        assert(is_first_open(before, key, j as int));
                        let c = choose|c: int| is_first_open(before, key, c);
                        assert(c == j as int) by {
                            if c < j {
                                assert(before[c].1 != key);
                            } else if c > j {
                                assert(before[j as int].1 != key);
                            }
                        }
                    }
                    let o = open.remove(j);
                    closed.push(NoteSpan { start: o.0, end: e.time, key });
                } else {
                    proof {
                        assert(!exists|c: int| is_first_open(before, key, c));
                    }
                }
            },
        }
        i = i + 1;
    }
    proof {
        assert(notes@.take(n as int) =~= notes@);
    }
    let ghost closed_before = closed@;
    let m = open.len();
    let mut k: usize = 0;
    while k < m
        invariant
            k <= m,
            m == open@.len(),
            closed@ == closed_before + open@.take(k as int).map_values(
                |o: (u64, u8)| NoteSpan { start: o.0, end: current_time, key: o.1 },
            ),
        decreases m - k,
    {
        let o = open[k];
        closed.push(NoteSpan { start: o.0, end: current_time, key: o.1 });
        k = k + 1;
        assert(closed@ =~= closed_before + open@.take(k as int).map_values(
            |o: (u64, u8)| NoteSpan { start: o.0, end: current_time, key: o.1 },
        ));
    }
    assert(open@.take(m as int) =~= open@);
    NoteLayout { spans: closed, lowest, highest }
}

} // verus!
