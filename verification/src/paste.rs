//! Synthesized paste: the keystrokes that deliver a paste to the app in
//! front, and the order in which they are posted.
//!
//! Without the Accessibility permission nothing is posted at all, since the
//! system would drop the keystrokes without a sign. The first keystroke that
//! does not post ends the sequence.

use crate::text;
use vstd::prelude::*;

verus! {

/// The point at which events enter the login session, past remapping.
pub const SESSION_EVENT_TAP: u32 = 1;

/// The flag of the command key.
pub const FLAG_COMMAND: u64 = 0x10_0000;

/// The key that is V on the ANSI layout.
pub const KEYCODE_V: u16 = 9;

/// One keystroke.
#[derive(Clone, Copy, Debug, PartialEq, Eq, Structural)]
pub struct KeyStroke {
    pub keycode: u16,
    pub flags: u64,
    pub down: bool,
}

/// The paste chord, in posting order: V down, then V up, the command flag on
/// both.
pub open spec fn chord() -> Seq<KeyStroke> {
    seq![
        KeyStroke { keycode: KEYCODE_V, flags: FLAG_COMMAND, down: true },
        KeyStroke { keycode: KEYCODE_V, flags: FLAG_COMMAND, down: false },
    ]
}

/// The paste chord, in posting order.
pub fn paste_sequence() -> (r: Vec<KeyStroke>)
    ensures
        r@ == chord(),
{
    let r = vec![
        KeyStroke { keycode: KEYCODE_V, flags: FLAG_COMMAND, down: true },
        KeyStroke { keycode: KEYCODE_V, flags: FLAG_COMMAND, down: false },
    ];
    assert(r@ =~= chord());
    r
}

/// The error where the permission is missing.
pub const UNTRUSTED_ERR: &'static str =
    "Accessibility permission not granted: macOS silently drops synthesized keystrokes without it, so the paste would do nothing. Run \"Grant Accessibility Access\" and approve beckon in System Settings, then try again";

/// What a paste does next.
#[derive(Debug, PartialEq, Eq)]
pub enum PasteStep {
    /// Post this keystroke, the one at `position` in the chord.
    Post { position: usize, stroke: KeyStroke },
    /// The paste is over.
    Over(Result<(), String>),
}

/// The step that posts the keystroke at a position, or the end past the last.
pub open spec fn step_at(position: int, step: PasteStep) -> bool {
    match step {
        PasteStep::Post { position: p, stroke } => p == position && position < chord().len()
            && stroke == chord()[position],
        PasteStep::Over(outcome) => position >= chord().len() && outcome is Ok,
    }
}

/// Starts a paste: without the permission it is over before anything is
/// posted.
pub fn paste_to_frontmost(trusted: bool) -> (r: PasteStep)
    ensures
        if trusted {
            step_at(0, r)
        } else {
            r matches PasteStep::Over(Err(e)) && e@ == UNTRUSTED_ERR@
        },
{
    if !trusted {
        return PasteStep::Over(Err(text::copy(UNTRUSTED_ERR)));
    }
    PasteStep::Post { position: 0, stroke: paste_sequence()[0] }
}

/// What follows the keystroke at a position: the next one, or the end where
/// it was the last or did not post.
pub fn posted(position: usize, outcome: Result<(), String>) -> (r: PasteStep)
    ensures
        match outcome {
            Ok(_) => step_at(position + 1, r),
            Err(why) => r matches PasteStep::Over(Err(e)) && e@ == why@,
        },
{
    match outcome {
        Err(why) => PasteStep::Over(Err(why)),
        Ok(_) => {
            let strokes = paste_sequence();
            if position < strokes.len() - 1 {
                PasteStep::Post { position: position + 1, stroke: strokes[position + 1] }
            } else {
                PasteStep::Over(Ok(()))
            }
        },
    }
}

/// Something that keystrokes are posted to.
pub trait Poster {
    /// What was posted so far: each keystroke with the answer to it.
    spec fn log(&self) -> Seq<(KeyStroke, Result<(), String>)>;

    /// Posts one keystroke.
    fn post(&mut self, stroke: KeyStroke) -> (r: Result<(), String>)
        ensures
            final(self).log() == old(self).log().push((stroke, r)),
    ;
}

/// A poster that posts nowhere: it keeps every keystroke, accepts the first
/// `accepts` of them and refuses the others.
#[derive(Debug)]
pub struct Recorder {
    pub posted: Vec<(KeyStroke, Result<(), String>)>,
    pub accepts: usize,
    pub refusal: String,
}

impl Recorder {
    /// A recorder that has kept nothing yet.
    pub fn new(accepts: usize, refusal: &str) -> (r: Recorder)
        ensures
            r.posted@.len() == 0,
            r.accepts == accepts,
            r.refusal@ == refusal@,
    {
        Recorder { posted: Vec::new(), accepts, refusal: text::copy(refusal) }
    }
}

impl Poster for Recorder {
    open spec fn log(&self) -> Seq<(KeyStroke, Result<(), String>)> {
        self.posted@
    }

    fn post(&mut self, stroke: KeyStroke) -> (r: Result<(), String>)
        ensures
            final(self).accepts == old(self).accepts,
            final(self).refusal == old(self).refusal,
            if old(self).posted@.len() < old(self).accepts {
                r is Ok
            } else {
                r == Err::<(), String>(old(self).refusal)
            },
    {
        let accepted = self.posted.len() < self.accepts;
        if accepted {
            self.posted.push((stroke, Ok(())));
            Ok(())
        } else {
            self.posted.push((stroke, Err(self.refusal.clone())));
            Err(self.refusal.clone())
        }
    }
}

/// Whether `after` is `before` followed by the keystrokes of the chord from
/// `position` on, in order, `n` of them: each but the last was accepted, the
/// last was refused unless the chord ends with it, and `outcome` is the answer
/// to the last.
pub open spec fn posts(
    before: Seq<(KeyStroke, Result<(), String>)>,
    after: Seq<(KeyStroke, Result<(), String>)>,
    position: int,
    n: int,
    outcome: Result<(), String>,
) -> bool {
    let at = before.len() as int;
    &&& 1 <= n <= chord().len() - position
    &&& after.len() == at + n
    &&& after.take(at) == before
    &&& forall|k: int| at <= k < at + n ==> (#[trigger] after[k]).0 == chord()[position + k - at]
    &&& forall|k: int| at <= k < at + n - 1 ==> (#[trigger] after[k]).1 is Ok
    &&& after.last().1 == outcome
    &&& outcome is Ok ==> position + n == chord().len()
}

/// The keystrokes of a log.
pub open spec fn strokes(log: Seq<(KeyStroke, Result<(), String>)>) -> Seq<KeyStroke> {
    log.map_values(|entry: (KeyStroke, Result<(), String>)| entry.0)
}

/// What a paste adds to the log is a head of the chord that is not empty, and
/// the whole chord where it goes through.
pub proof fn law_only_the_chord_is_posted(
    before: Seq<(KeyStroke, Result<(), String>)>,
    after: Seq<(KeyStroke, Result<(), String>)>,
    n: int,
    outcome: Result<(), String>,
)
    requires
        posts(before, after, 0, n, outcome),
    ensures
        1 <= n <= chord().len(),
        strokes(after) == strokes(before) + chord().take(n),
        outcome is Ok <==> strokes(after) == strokes(before) + chord() && after.last().1 is Ok,
{
    assert(strokes(after) =~= strokes(before) + chord().take(n)) by {
        assert forall|k: int| 0 <= k < after.len() implies strokes(after)[k] == (strokes(before)
            + chord().take(n))[k] by {
            if k < before.len() {
                assert(after.take(before.len() as int)[k] == before[k]);
            } else {
                assert(after[k].0 == chord()[k - before.len()]);
            }
        }
    }
    if outcome is Ok {
        assert(chord().take(n) =~= chord());
    }
}

/// A whole paste with the given poster: the keystrokes of the chord in order,
/// up to the first that is refused. Without the permission nothing is posted.
pub fn paste_gated<P: Poster>(trusted: bool, poster: &mut P) -> (r: Result<(), String>)
    ensures
        if trusted {
            exists|n: int| posts(old(poster).log(), final(poster).log(), 0, n, r)
        } else {
            &&& final(poster).log() == old(poster).log()
            &&& r matches Err(e) && e@ == UNTRUSTED_ERR@
        },
{
    match paste_to_frontmost(trusted) {
        PasteStep::Over(outcome) => outcome,
        PasteStep::Post { position, stroke } => post_from(position, stroke, poster),
    }
}

/// Posts the chord from a position on.
fn post_from<P: Poster>(position: usize, stroke: KeyStroke, poster: &mut P) -> (r: Result<
    (),
    String,
>)
    requires
        position < chord().len(),
        stroke == chord()[position as int],
    ensures
        exists|n: int| posts(old(poster).log(), final(poster).log(), position as int, n, r),
    decreases chord().len() - position,
{
    let ghost before = poster.log();
    let answer = poster.post(stroke);
    let ghost mid = poster.log();
    assert(mid.take(before.len() as int) =~= before);
    if answer.is_err() {
        assert(posts(before, mid, position as int, 1, answer));
        return answer;
    }
    match posted(position, Ok(())) {
        PasteStep::Over(_) => {
            assert(posts(before, mid, position as int, 1, answer));
            answer
        },
        PasteStep::Post { position: next, stroke: following } => {
            let r = post_from(next, following, poster);
            proof {
                let after = poster.log();
                let n = choose|n: int| posts(mid, after, next as int, n, r);
                assert(posts(mid, after, next as int, n, r));
                assert(after.take(before.len() as int) =~= before) by {
                    assert forall|k: int| 0 <= k < before.len() implies after[k] == before[k] by {
                        assert(after.take(mid.len() as int)[k] == mid[k]);
                    }
                }
                assert(after[before.len() as int] == after.take(mid.len() as int)[before.len() as int]);
                assert(posts(before, after, position as int, n + 1, r));
            }
            r
        },
    }
}

/// A paste that goes through posts the V key down and then up, both with the
/// command flag, and nothing else; one that does not posts nothing after the
/// keystroke that was refused.
pub proof fn law_a_paste_is_command_and_v(
    before: Seq<(KeyStroke, Result<(), String>)>,
    after: Seq<(KeyStroke, Result<(), String>)>,
    n: int,
    outcome: Result<(), String>,
)
    requires
        posts(before, after, 0, n, outcome),
    ensures
        ({
            let down = KeyStroke { keycode: 9, flags: 0x10_0000, down: true };
            let up = KeyStroke { keycode: 9, flags: 0x10_0000, down: false };
            let at = before.len() as int;
            &&& after.len() == at + n && (n == 1 || n == 2)
            &&& after.take(at) == before
            &&& after[at].0 == down
            &&& n == 2 ==> after[at + 1].0 == up && after[at].1 is Ok
            &&& outcome is Ok ==> n == 2 && after[at + 1].1 is Ok
            &&& outcome is Err ==> after.last().1 == outcome
        }),
{
    let at = before.len() as int;
    assert(chord().len() == 2);
    assert(after[at].0 == chord()[0]);
    if n == 2 {
        assert(after[at + 1].0 == chord()[1]);
    }
}

/// The steps of a paste are the two keystrokes in order and then its end.
pub proof fn law_steps_follow_the_chord(position: int, step: PasteStep)
    requires
        step_at(position, step),
        0 <= position,
    ensures
        position == 0 ==> step is Post && step->stroke.down && step->stroke.keycode == 9,
        position == 1 ==> step is Post && !step->stroke.down && step->stroke.keycode == 9,
        position < 2 ==> step->position == position && step->stroke.flags == 0x10_0000,
        position >= 2 ==> step is Over && step->Over_0 is Ok,
{
    assert(chord().len() == 2);
}

} // verus!
