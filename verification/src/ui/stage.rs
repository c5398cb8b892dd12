//! The live checklist: one line per pipeline step, each with its state
//! (done, active, pending, failed), its label, and, once finished, the
//! concrete result it produced (an address, a byte count, a fingerprint).
//!
//! This is the state a painter samples and the lines it draws; the painter
//! itself (a thread redrawing in place) belongs to the program around the
//! library. Every line is one step, so the drawn block is exactly as tall
//! as the step count.

use crate::ui::glyph;
use crate::ui::mascot::MARK;
use crate::ui::pal;
use crate::ui::panel::{repeat, sat_sub, spaces};
use crate::ui::theme::{bold_text, dim_text, paint_text, Palette, Rgb};
use crate::util::text::{chars_of, clone_string, push_all, push_str, string_of};
use vstd::prelude::*;

verus! {

/// State of one checklist step.
#[derive(Debug, Clone, Copy, PartialEq, Eq, Structural)]
pub enum Phase {
    /// Not started.
    Pending,
    /// Running now.
    Active,
    /// Finished.
    Done,
    /// Finished with an error.
    Failed,
}

/// A single pipeline step.
#[derive(Debug, Clone)]
pub struct Step {
    /// Its label.
    pub label: String,
    /// Its state.
    pub phase: Phase,
    /// The concrete result shown after completion, or the failure reason.
    pub result: String,
}

/// The checklist state a painter samples.
#[derive(Debug, Clone)]
pub struct Checklist {
    /// The steps, in order.
    pub steps: Vec<Step>,
    /// Live detail for the active step.
    pub detail: String,
    /// Whether updates are recorded (an inert checklist ignores them).
    pub active: bool,
}

/// What a step holds.
pub struct StepV {
    pub label: Seq<char>,
    pub phase: Phase,
    pub result: Seq<char>,
}

/// The view of a step.
pub open spec fn step_view(s: Step) -> StepV {
    StepV { label: s.label@, phase: s.phase, result: s.result@ }
}

/// The views of the steps.
pub open spec fn steps_view(v: Seq<Step>) -> Seq<StepV> {
    v.map_values(|s: Step| step_view(s))
}

/// The steps with step `i` set to `phase`, and its result to `result` when
/// given; unchanged when `i` is out of range.
pub open spec fn set_step(v: Seq<StepV>, i: int, phase: Phase, result: Option<Seq<char>>) -> Seq<StepV> {
    if 0 <= i < v.len() {
        v.update(
            i,
            StepV {
                phase,
                result: match result {
                    Some(r) => r,
                    None => v[i].result,
                },
                ..v[i]
            },
        )
    } else {
        v
    }
}

/// The mark and the colored label of a step.
pub open spec fn mark_and_label(s: StepV, color: bool) -> (Seq<char>, Seq<char>) {
    match s.phase {
        Phase::Done => (bold_text(color, MARK@, pal::lime()), paint_text(color, s.label, pal::chrome())),
        Phase::Active => (bold_text(color, MARK@, pal::amber()), bold_text(color, s.label, pal::amber())),
        Phase::Pending => (dim_text(color, glyph::DOT@, pal::steel()), dim_text(color, s.label, pal::steel())),
        Phase::Failed => (bold_text(color, glyph::BAD@, pal::rust()), paint_text(color, s.label, pal::rust())),
    }
}

/// What follows the label: the live detail of the active step, the result
/// of a finished one, else nothing.
pub open spec fn trailer(s: StepV, detail: Seq<char>, color: bool) -> Seq<char> {
    match s.phase {
        Phase::Active => if detail.len() > 0 {
            paint_text(color, detail, pal::mist())
        } else {
            Seq::empty()
        },
        Phase::Done => if s.result.len() > 0 {
            dim_text(color, s.result, pal::mist())
        } else {
            Seq::empty()
        },
        Phase::Failed => if s.result.len() > 0 {
            dim_text(color, s.result, pal::rust())
        } else {
            Seq::empty()
        },
        Phase::Pending => Seq::empty(),
    }
}

/// One checklist line: the mark, the label in an 11-wide column, then the
/// trailer.
pub open spec fn step_line(s: StepV, detail: Seq<char>, color: bool) -> Seq<char> {
    let (mark, label) = mark_and_label(s, color);
    "  "@ + mark + "  "@ + label + repeat(' ', sat_sub(11, s.label.len() as int) + 1) + trailer(s, detail, color)
}

impl Checklist {
    /// The steps and detail as plain values.
    pub open spec fn steps_v(&self) -> Seq<StepV> {
        steps_view(self.steps@)
    }

    /// A checklist over `labels`, every step pending.
    pub fn new(labels: &[&str], active: bool) -> (c: Checklist)
        ensures
            c.steps_v().len() == labels@.len(),
            forall|i: int|
                0 <= i < labels@.len() ==> #[trigger] c.steps_v()[i] == (StepV {
                    label: labels@[i]@,
                    phase: Phase::Pending,
                    result: Seq::empty(),
                }),
            c.detail@ == Seq::<char>::empty(),
            c.active == active,
    {
        let mut steps: Vec<Step> = Vec::new();
        let mut i: usize = 0;
        while i < labels.len()
            invariant
                i <= labels@.len(),
                steps@.len() == i,
                forall|k: int|
                    0 <= k < i ==> #[trigger] step_view(steps@[k]) == (StepV {
                        label: labels@[k]@,
                        phase: Phase::Pending,
                        result: Seq::empty(),
                    }),
            decreases labels.len() - i,
        {
            let empty: Vec<char> = Vec::new();
            steps.push(Step { label: string_of(&chars_of(labels[i])), phase: Phase::Pending, result: string_of(&empty) });
            i += 1;
        }
        let empty: Vec<char> = Vec::new();
        let c = Checklist { steps, detail: string_of(&empty), active };
        assert forall|i: int| 0 <= i < labels@.len() implies #[trigger] c.steps_v()[i] == (StepV {
            label: labels@[i]@,
            phase: Phase::Pending,
            result: Seq::empty(),
        }) by {
            assert(c.steps_v()[i] == step_view(c.steps@[i]));
        }
        c
    }

    fn set(&mut self, index: usize, phase: Phase, result: Option<&str>)
        ensures
            final(self).steps_v() == set_step(
                old(self).steps_v(),
                index as int,
                phase,
                match result {
                    Some(r) => Some(r@),
                    None => None,
                },
            ),
            final(self).detail == old(self).detail,
            final(self).active == old(self).active,
    {
        if index < self.steps.len() {
            let label = clone_string(&self.steps[index].label);
            let res = match result {
                Some(r) => string_of(&chars_of(r)),
                None => clone_string(&self.steps[index].result),
            };
            let ghost before = self.steps@;
            self.steps.set(index, Step { label, phase, result: res });
            assert(self.steps_v() =~= set_step(
                steps_view(before),
                index as int,
                phase,
                match result {
                    Some(r) => Some(r@),
                    None => None,
                },
            ));
        } else {
            assert(set_step(old(self).steps_v(), index as int, phase, match result {
                Some(r) => Some(r@),
                None => None,
            }) == old(self).steps_v());
        }
    }

    /// Mark step `index` active and show `detail` as its live detail. An
    /// index out of range changes no step; an inert checklist changes
    /// nothing.
    pub fn begin(&mut self, index: usize, detail: &str)
        ensures
            final(self).active == old(self).active,
            old(self).active ==> final(self).steps_v() == set_step(old(self).steps_v(), index as int, Phase::Active, None),
            old(self).active ==> final(self).detail@ == detail@,
            !old(self).active ==> final(self).steps_v() == old(self).steps_v() && final(self).detail@ == old(self).detail@,
    {
        if !self.active {
            return;
        }
        self.set(index, Phase::Active, None);
        self.detail = string_of(&chars_of(detail));
    }

    /// Mark step `index` done with the `result` it produced.
    pub fn complete(&mut self, index: usize, result: &str)
        ensures
            final(self).active == old(self).active,
            final(self).detail == old(self).detail,
            final(self).steps_v() == if old(self).active {
                set_step(old(self).steps_v(), index as int, Phase::Done, Some(result@))
            } else {
                old(self).steps_v()
            },
    {
        if !self.active {
            return;
        }
        self.set(index, Phase::Done, Some(result));
    }

    /// Mark step `index` failed with a `reason`.
    pub fn fail(&mut self, index: usize, reason: &str)
        ensures
            final(self).active == old(self).active,
            final(self).detail == old(self).detail,
            final(self).steps_v() == if old(self).active {
                set_step(old(self).steps_v(), index as int, Phase::Failed, Some(reason@))
            } else {
                old(self).steps_v()
            },
    {
        if !self.active {
            return;
        }
        self.set(index, Phase::Failed, Some(reason));
    }

    /// Replace the active step's live detail without changing any step.
    pub fn set_detail(&mut self, detail: &str)
        ensures
            final(self).active == old(self).active,
            final(self).steps_v() == old(self).steps_v(),
            final(self).detail@ == if old(self).active { detail@ } else { old(self).detail@ },
    {
        if !self.active {
            return;
        }
        self.detail = string_of(&chars_of(detail));
    }
}

/// One checklist line.
pub fn line(step: &Step, detail: &str, p: Palette) -> (r: String)
    ensures
        r@ == step_line(step_view(*step), detail@, p.colored()),
{
    let label = step.label.as_str();
    let (mark, colored) = match step.phase {
        Phase::Done => (p.bold(MARK, pal::lime()), p.paint(label, pal::chrome())),
        Phase::Active => (p.bold(MARK, pal::amber()), p.bold(label, pal::amber())),
        Phase::Pending => (p.dim(glyph::DOT, pal::steel()), p.dim(label, pal::steel())),
        Phase::Failed => (p.bold(glyph::BAD, pal::rust()), p.paint(label, pal::rust())),
    };
    let ll = chars_of(label).len();
    let pad: usize = if ll < 11 { 11 - ll } else { 0 };
    let dl = chars_of(detail).len();
    let rl = chars_of(step.result.as_str()).len();
    let empty: Vec<char> = Vec::new();
    let tail = match step.phase {
        Phase::Active => if dl > 0 {
            p.paint(detail, pal::mist())
        } else {
            string_of(&empty)
        },
        Phase::Done => if rl > 0 {
            p.dim(step.result.as_str(), pal::mist())
        } else {
            string_of(&empty)
        },
        Phase::Failed => if rl > 0 {
            p.dim(step.result.as_str(), pal::rust())
        } else {
            string_of(&empty)
        },
        Phase::Pending => string_of(&empty),
    };
    let mut out: Vec<char> = Vec::new();
    push_str(&mut out, "  ");
    push_str(&mut out, mark.as_str());
    push_str(&mut out, "  ");
    push_str(&mut out, colored.as_str());
    push_all(&mut out, &spaces(pad + 1));
    push_str(&mut out, tail.as_str());
    assert(out@ =~= step_line(step_view(*step), detail@, p.colored()));
    string_of(&out)
}

/// The checklist's lines, one per step.
pub fn render(c: &Checklist, p: Palette) -> (r: Vec<String>)
    ensures
        r@.len() == c.steps@.len(),
        forall|i: int| 0 <= i < r@.len() ==> #[trigger] r@[i]@ == step_line(c.steps_v()[i], c.detail@, p.colored()),
{
    let mut out: Vec<String> = Vec::new();
    let mut i: usize = 0;
    while i < c.steps.len()
        invariant
            i <= c.steps@.len(),
            out@.len() == i,
            forall|k: int| 0 <= k < i ==> #[trigger] out@[k]@ == step_line(c.steps_v()[k], c.detail@, p.colored()),
        decreases c.steps.len() - i,
    {
        out.push(line(&c.steps[i], c.detail.as_str(), p));
        i += 1;
    }
    out
}

} // verus!
