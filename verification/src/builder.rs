//! The region builder: a stateful single pass over the ordered line
//! sequence that turns classified lines into labeled crop regions.
//!
//! Per line, two ordered checks run. First the top-level check: a line whose
//! label equals the top-level label closes the current question block with a
//! `FullQuestion` region and advances the question index. Then the
//! fine-grained check, read against the top-level label as the first check
//! may just have rewritten it: a line that matches neither the top-level nor
//! the previous label opens the answer run with a `QuestionStart` region;
//! any other line yields a `QuestionAnswer` region. A line that closed a
//! question block therefore also yields an answer region — deliberately so,
//! as the downstream crops depend on this exact double emission. After the
//! final line, a closing `FullQuestion` and a closing `QuestionAnswer`
//! region are always added.

use vstd::prelude::*;

use crate::classify::TextType;
use crate::classify::question_type;
use crate::classify::spec_question_type;
use crate::region::LineModel;
use crate::region::Region;
use crate::region::RegionKind;
use crate::region::RegionModel;
use crate::region::TextLine;
use crate::region::line_wf;
use crate::region::region_labels_wf;

verus! {

/// Label the classifier gives a line of the model.
pub open spec fn line_label(l: LineModel) -> TextType {
    spec_question_type(l.text)
}

/// The builder's working state across one pass: the box and label that
/// opened the current question block, the box and label of the last line
/// that was not skipped, and the running question and answer indices.
#[derive(Clone, Debug)]
pub struct RunningAnchor {
    pub top_level_label: TextType,
    pub previous_label: TextType,
    pub top_level_top_y: i32,
    pub previous_top_y: i32,
    pub question_number: usize,
    pub answer_number: usize,
}

/// Mathematical view of a [`RunningAnchor`].
pub ghost struct AnchorModel {
    pub top_label: TextType,
    pub prev_label: TextType,
    pub top_y: int,
    pub prev_y: int,
    pub question: int,
    pub answer: int,
}

impl View for RunningAnchor {
    type V = AnchorModel;

    open spec fn view(&self) -> AnchorModel {
        AnchorModel {
            top_label: self.top_level_label,
            prev_label: self.previous_label,
            top_y: self.top_level_top_y as int,
            prev_y: self.previous_top_y as int,
            question: self.question_number as int,
            answer: self.answer_number as int,
        }
    }
}

/// The anchor before any line has been seen: unset labels, indices at one.
pub open spec fn initial_anchor() -> AnchorModel {
    AnchorModel {
        top_label: TextType::Undefined,
        prev_label: TextType::Undefined,
        top_y: 0,
        prev_y: 0,
        question: 1,
        answer: 1,
    }
}

/// The anchor's own invariant: offsets on the page, indices at least one.
pub open spec fn anchor_wf(a: AnchorModel) -> bool {
    0 <= a.top_y && 0 <= a.prev_y && 1 <= a.question && 1 <= a.answer
}

/// A region spanning from `top` to `until`, the full page width from the
/// left edge.
pub open spec fn span_region(
    kind: RegionKind,
    q: int,
    a: Option<int>,
    top: int,
    until: int,
    w: int,
) -> RegionModel {
    RegionModel { kind: kind, question: q, answer: a, left: 1, top: top, width: w, height: until - top }
}

/// The regions the builder emits for one line (the closing regions of the
/// final line aside), given the anchor standing before the line. The very
/// first line, and every line seen while the top-level label is still unset,
/// only primes the anchor; a later `Undefined` line is skipped outright.
pub open spec fn line_regions(st: AnchorModel, l: LineModel, w: int) -> Seq<RegionModel> {
    let label = line_label(l);
    if st.top_label is Undefined {
        Seq::empty()
    } else if label is Undefined {
        Seq::empty()
    } else {
        let starts_question = label == st.top_label;
        let head = if starts_question {
            seq![span_region(RegionKind::FullQuestion, st.question, None, st.top_y, l.top_y, w)]
        } else {
            Seq::empty()
        };
        let q: int = if starts_question {
            st.question + 1
        } else {
            st.question
        };
        let top_after = if starts_question {
            label
        } else {
            st.top_label
        };
        let tail = if label != top_after && label != st.prev_label {
            seq![span_region(RegionKind::QuestionStart, q, None, st.prev_y, l.top_y, w)]
        } else {
            seq![
                span_region(
                    RegionKind::QuestionAnswer,
                    q,
                    Some(st.answer),
                    st.prev_y,
                    l.top_y,
                    w,
                ),
            ]
        };
        head + tail
    }
}

/// The anchor after the builder has processed one line.
pub open spec fn line_state(st: AnchorModel, l: LineModel) -> AnchorModel {
    let label = line_label(l);
    if st.top_label is Undefined {
        AnchorModel {
            top_label: label,
            prev_label: label,
            top_y: l.top_y,
            prev_y: l.top_y,
            question: st.question,
            answer: st.answer,
        }
    } else if label is Undefined {
        st
    } else {
        let starts_question = label == st.top_label;
        let q: int = if starts_question {
            st.question + 1
        } else {
            st.question
        };
        let ty: int = if starts_question {
            l.top_y
        } else {
            st.top_y
        };
        let top_after = if starts_question {
            label
        } else {
            st.top_label
        };
        let first_answer = label != top_after && label != st.prev_label;
        let a: int = if first_answer {
            1
        } else {
            st.answer + 1
        };
        AnchorModel {
            top_label: top_after,
            prev_label: label,
            top_y: ty,
            prev_y: l.top_y,
            question: q,
            answer: a,
        }
    }
}

/// The anchor after the first `i` lines.
pub open spec fn anchor_after(lines: Seq<LineModel>, i: int) -> AnchorModel
    decreases i,
{
    if i <= 0 {
        initial_anchor()
    } else {
        line_state(anchor_after(lines, i - 1), lines[i - 1])
    }
}

/// The regions emitted for the first `i` lines, closing regions aside.
pub open spec fn regions_prefix(lines: Seq<LineModel>, w: int, i: int) -> Seq<RegionModel>
    decreases i,
{
    if i <= 0 {
        Seq::empty()
    } else {
        regions_prefix(lines, w, i - 1) + line_regions(
            anchor_after(lines, i - 1),
            lines[i - 1],
            w,
        )
    }
}

/// The two closing regions of the final line: the last question block, and
/// a final answer crop of the line's own detected height.
pub open spec fn closing_regions(lines: Seq<LineModel>, w: int) -> Seq<RegionModel>
    recommends
        lines.len() > 0,
{
    let st = anchor_after(lines, lines.len() as int);
    let last = lines.last();
    seq![
        span_region(RegionKind::FullQuestion, st.question, None, st.top_y, last.top_y, w),
        RegionModel {
            kind: RegionKind::QuestionAnswer,
            question: st.question,
            answer: Some(st.answer),
            left: 1,
            top: last.top_y,
            width: w,
            height: last.height,
        },
    ]
}

/// Every region the builder produces for a line sequence, in emission order.
pub open spec fn spec_regions(lines: Seq<LineModel>, w: int) -> Seq<RegionModel> {
    if lines.len() == 0 {
        Seq::empty()
    } else {
        regions_prefix(lines, w, lines.len() as int) + closing_regions(lines, w)
    }
}

/// What the builder assumes of its input: well-formed lines in reading
/// order, with non-decreasing top offsets.
pub open spec fn wf_input(lines: Seq<LineModel>) -> bool {
    &&& (forall|i: int| 0 <= i < lines.len() ==> line_wf(#[trigger] lines[i]))
    &&& (forall|i: int, j: int|
        0 <= i <= j < lines.len() ==> #[trigger] lines[i].top_y <= #[trigger] lines[j].top_y)
}

/// The models of a sequence of text lines.
pub open spec fn line_models(lines: Seq<TextLine>) -> Seq<LineModel> {
    lines.map_values(|l: TextLine| l@)
}

/// The models of a sequence of regions.
pub open spec fn region_models(rs: Seq<Region>) -> Seq<RegionModel> {
    rs.map_values(|r: Region| r@)
}

/// The builder's failure: it refuses an empty line sequence.
#[derive(Clone, Copy, PartialEq, Eq, Structural, Debug)]
pub enum BuildError {
    MalformedInput,
}

impl RunningAnchor {
    /// The anchor before the first line.
    pub fn initial() -> (a: RunningAnchor)
        ensures
            a@ == initial_anchor(),
    {
        RunningAnchor {
            top_level_label: TextType::Undefined,
            previous_label: TextType::Undefined,
            top_level_top_y: 0,
            previous_top_y: 0,
            question_number: 1,
            answer_number: 1,
        }
    }

    /// Advances the anchor over one line and returns the regions emitted for
    /// that line, closing regions aside.
    pub fn observe(&mut self, line: &TextLine, page_width: i32) -> (emitted: Vec<Region>)
        requires
            anchor_wf(old(self)@),
            line_wf(line@),
            old(self)@.question < usize::MAX,
            old(self)@.answer < usize::MAX,
        ensures
            final(self)@ == line_state(old(self)@, line@),
            region_models(emitted@) == line_regions(old(self)@, line@, page_width as int),
            anchor_wf(final(self)@),
    {
        let label = question_type(line.text.as_str());
        let mut emitted: Vec<Region> = Vec::new();
        if self.top_level_label == TextType::Undefined {
            self.top_level_label = label;
            self.previous_label = label;
            self.top_level_top_y = line.top_y;
            self.previous_top_y = line.top_y;
            proof {
                assert(region_models(emitted@) =~= line_regions(
                    old(self)@,
                    line@,
                    page_width as int,
                ));
            }
            return emitted;
        }
        if label == TextType::Undefined {
            proof {
                assert(region_models(emitted@) =~= line_regions(
                    old(self)@,
                    line@,
                    page_width as int,
                ));
            }
            return emitted;
        }
        if label == self.top_level_label {
            emitted.push(
                Region {
                    kind: RegionKind::FullQuestion,
                    question_number: self.question_number,
                    answer_number: None,
                    left: 1,
                    top: self.top_level_top_y,
                    width: page_width,
                    height: line.top_y - self.top_level_top_y,
                },
            );
            self.top_level_top_y = line.top_y;
            self.top_level_label = label;
            self.question_number = self.question_number + 1;
        }
        if label != self.top_level_label && label != self.previous_label {
            emitted.push(
                Region {
                    kind: RegionKind::QuestionStart,
                    question_number: self.question_number,
                    answer_number: None,
                    left: 1,
                    top: self.previous_top_y,
                    width: page_width,
                    height: line.top_y - self.previous_top_y,
                },
            );
            self.answer_number = 1;
        } else {
            emitted.push(
                Region {
                    kind: RegionKind::QuestionAnswer,
                    question_number: self.question_number,
                    answer_number: Some(self.answer_number),
                    left: 1,
                    top: self.previous_top_y,
                    width: page_width,
                    height: line.top_y - self.previous_top_y,
                },
            );
            self.answer_number = self.answer_number + 1;
        }
        self.previous_top_y = line.top_y;
        self.previous_label = label;
        proof {
            assert(region_models(emitted@) =~= line_regions(old(self)@, line@, page_width as int));
        }
        emitted
    }
}

/// Runs the full pass: classifies each line in order and derives the
/// ordered region list, or refuses an empty sequence.
pub fn build_regions(lines: &Vec<TextLine>, page_width: i32) -> (res: Result<
    Vec<Region>,
    BuildError,
>)
    requires
        wf_input(line_models(lines@)),
    ensures
        (match res {
            Ok(regions) => lines@.len() > 0 && region_models(regions@) == spec_regions(
                line_models(lines@),
                page_width as int,
            ),
            Err(e) => lines@.len() == 0 && e == BuildError::MalformedInput,
        }),
{
    if lines.len() == 0 {
        return Err(BuildError::MalformedInput);
    }
    let ghost ms = line_models(lines@);
    let mut anchor = RunningAnchor::initial();
    let mut out: Vec<Region> = Vec::new();
    let n: usize = lines.len();
    let mut i: usize = 0;
    proof {
        assert(region_models(out@) =~= regions_prefix(ms, page_width as int, 0));
    }
    while i < n
        invariant
            0 < n == lines@.len(),
            i <= n,
            ms == line_models(lines@),
            wf_input(ms),
            anchor@ == anchor_after(ms, i as int),
            anchor_wf(anchor@),
            anchor@.question <= if i == 0 { 1int } else { i as int },
            anchor@.answer <= if i == 0 { 1int } else { i as int },
            region_models(out@) == regions_prefix(ms, page_width as int, i as int),
        decreases n - i,
    {
        let line = &lines[i];
        proof {
            assert(ms[i as int] == lines@[i as int]@);
            assert(line_wf(line@));
        }
        let mut emitted = anchor.observe(line, page_width);
        out.append(&mut emitted);
        proof {
            assert(region_models(out@) =~= regions_prefix(ms, page_width as int, i + 1));
        }
        i = i + 1;
    }
    let last = &lines[n - 1];
    proof {
        assert(ms[n - 1] == lines@[n - 1]@);
        assert(line_wf(last@));
    }
    let r1 = Region {
        kind: RegionKind::FullQuestion,
        question_number: anchor.question_number,
        answer_number: None,
        left: 1,
        top: anchor.top_level_top_y,
        width: page_width,
        height: last.top_y - anchor.top_level_top_y,
    };
    let r2 = Region {
        kind: RegionKind::QuestionAnswer,
        question_number: anchor.question_number,
        answer_number: Some(anchor.answer_number),
        left: 1,
        top: last.top_y,
        width: page_width,
        height: last.height,
    };
    out.push(r1);
    out.push(r2);
    proof {
        assert(region_models(out@) =~= spec_regions(ms, page_width as int));
    }
    Ok(out)
}

/// Law: the builder is a function of the line sequence and page width alone —
/// re-running it on the identical input yields the identical region list.
pub proof fn lemma_rerun_identical(
    lines: Seq<LineModel>,
    w: int,
    r1: Seq<RegionModel>,
    r2: Seq<RegionModel>,
)
    requires
        r1 == spec_regions(lines, w),
        r2 == spec_regions(lines, w),
    ensures
        r1 == r2,
{
}

/// The shape every emitted region has: the crop starts at the left page
/// edge, spans the given page width, sits at a non-negative top offset with
/// non-negative height, and is well labeled.
pub open spec fn region_shape(r: RegionModel, w: int) -> bool {
    &&& r.left == 1
    &&& 0 <= r.top
    &&& 0 <= r.height
    &&& r.width == w
    &&& region_labels_wf(r)
}

/// The anchor after `i` well-ordered lines is well formed, and anchors no
/// deeper than the last line seen.
pub proof fn lemma_anchor_after_wf(lines: Seq<LineModel>, i: int)
    requires
        wf_input(lines),
        0 <= i <= lines.len(),
    ensures
        anchor_wf(anchor_after(lines, i)),
        i >= 1 ==> anchor_after(lines, i).top_y <= lines[i - 1].top_y,
        i >= 1 ==> anchor_after(lines, i).prev_y <= lines[i - 1].top_y,
        i >= 1 ==> exists|j: int|
            0 <= j < i && anchor_after(lines, i).top_y == #[trigger] lines[j].top_y,
        i >= 1 ==> exists|j: int|
            0 <= j < i && anchor_after(lines, i).prev_y == #[trigger] lines[j].top_y,
    decreases i,
{
    if i >= 1 {
        lemma_anchor_after_wf(lines, i - 1);
        if i >= 2 {
            assert(lines[i - 2].top_y <= lines[i - 1].top_y);
            let st = anchor_after(lines, i - 1);
            if line_state(st, lines[i - 1]).top_y == st.top_y {
                let j = choose|j: int| 0 <= j < i - 1 && st.top_y == #[trigger] lines[j].top_y;
                assert(anchor_after(lines, i).top_y == lines[j].top_y);
            }
        }
        assert(line_wf(lines[i - 1]));
        assert(anchor_after(lines, i).prev_y == lines[i - 1].top_y || anchor_after(
            lines,
            i,
        ).prev_y == anchor_after(lines, i - 1).prev_y);
        if i >= 2 && anchor_after(lines, i).prev_y == anchor_after(lines, i - 1).prev_y {
            let st = anchor_after(lines, i - 1);
            let j = choose|j: int| 0 <= j < i - 1 && st.prev_y == #[trigger] lines[j].top_y;
            assert(anchor_after(lines, i).prev_y == lines[j].top_y);
        }
    }
}

proof fn lemma_prefix_shaped(lines: Seq<LineModel>, w: int, i: int)
    requires
        wf_input(lines),
        0 <= i <= lines.len(),
    ensures
        forall|k: int|
            0 <= k < regions_prefix(lines, w, i).len() ==> region_shape(
                #[trigger] regions_prefix(lines, w, i)[k],
                w,
            ),
    decreases i,
{
    if i >= 1 {
        lemma_prefix_shaped(lines, w, i - 1);
        lemma_anchor_after_wf(lines, i - 1);
        assert(line_wf(lines[i - 1]));
        if i >= 2 {
            assert(lines[i - 2].top_y <= lines[i - 1].top_y);
        }
        let st = anchor_after(lines, i - 1);
        let emitted = line_regions(st, lines[i - 1], w);
        assert forall|k: int| 0 <= k < emitted.len() implies region_shape(emitted[k], w) by {
        }
        assert forall|k: int|
            0 <= k < regions_prefix(lines, w, i).len() implies region_shape(
            regions_prefix(lines, w, i)[k],
            w,
        ) by {
            if k >= regions_prefix(lines, w, i - 1).len() {
                assert(regions_prefix(lines, w, i)[k] == emitted[k - regions_prefix(
                    lines,
                    w,
                    i - 1,
                ).len()]);
            }
        }
    }
}

proof fn lemma_prefix_observed(lines: Seq<LineModel>, w: int, i: int)
    requires
        wf_input(lines),
        0 <= i <= lines.len(),
    ensures
        forall|k: int|
            0 <= k < regions_prefix(lines, w, i).len() ==> exists|j: int|
                0 <= j < i && (#[trigger] regions_prefix(lines, w, i)[k]).top
                    == #[trigger] lines[j].top_y,
        forall|k: int|
            0 <= k < regions_prefix(lines, w, i).len() ==> exists|j: int|
                0 <= j < i && (#[trigger] regions_prefix(lines, w, i)[k]).top + regions_prefix(
                    lines,
                    w,
                    i,
                )[k].height == #[trigger] lines[j].top_y,
    decreases i,
{
    if i >= 1 {
        lemma_prefix_observed(lines, w, i - 1);
        lemma_anchor_after_wf(lines, i - 1);
        let st = anchor_after(lines, i - 1);
        let emitted = line_regions(st, lines[i - 1], w);
        let before = regions_prefix(lines, w, i - 1);
        assert forall|k: int|
            0 <= k < regions_prefix(lines, w, i).len() implies (exists|j: int|
            0 <= j < i && (#[trigger] regions_prefix(lines, w, i)[k]).top
                == #[trigger] lines[j].top_y) && (exists|j: int|
            0 <= j < i && regions_prefix(lines, w, i)[k].top + regions_prefix(lines, w, i)[k].height
                == #[trigger] lines[j].top_y) by {
            if k < before.len() {
                assert(regions_prefix(lines, w, i)[k] == before[k]);
                let j1 = choose|j: int| 0 <= j < i - 1 && before[k].top == #[trigger] lines[j].top_y;
                assert(0 <= j1 < i && regions_prefix(lines, w, i)[k].top == lines[j1].top_y);
                let j2 = choose|j: int|
                    0 <= j < i - 1 && before[k].top + before[k].height == #[trigger] lines[j].top_y;
                assert(0 <= j2 < i && regions_prefix(lines, w, i)[k].top + regions_prefix(
                    lines,
                    w,
                    i,
                )[k].height == lines[j2].top_y);
            } else {
                assert(regions_prefix(lines, w, i)[k] == emitted[k - before.len()]);
                // the emitted rectangles are anchored at an observed line
                // and reach down to the line just processed
                if emitted.len() > 0 {
                    let jt = choose|j: int|
                        0 <= j < i - 1 && st.top_y == #[trigger] lines[j].top_y;
                    let jp = choose|j: int|
                        0 <= j < i - 1 && st.prev_y == #[trigger] lines[j].top_y;
                    assert(emitted[k - before.len()].top == lines[jt].top_y || emitted[k
                        - before.len()].top == lines[jp].top_y);
                    assert(emitted[k - before.len()].top + emitted[k - before.len()].height
                        == lines[i - 1].top_y);
                }
            }
        }
    }
}

/// Law: a region's rectangle is derived only from lines already observed —
/// its top edge is the top offset of an earlier line, its bottom edge the
/// top offset of the line it was emitted for; the closing answer region
/// alone reaches one line height below the final line.
pub proof fn lemma_regions_from_observed_lines(lines: Seq<LineModel>, w: int)
    requires
        wf_input(lines),
        lines.len() > 0,
    ensures
        forall|k: int|
            0 <= k < spec_regions(lines, w).len() ==> exists|j: int|
                0 <= j < lines.len() && (#[trigger] spec_regions(lines, w)[k]).top
                    == #[trigger] lines[j].top_y,
        forall|k: int|
            0 <= k < spec_regions(lines, w).len() - 1 ==> exists|j: int|
                0 <= j < lines.len() && (#[trigger] spec_regions(lines, w)[k]).top + spec_regions(
                    lines,
                    w,
                )[k].height == #[trigger] lines[j].top_y,
        spec_regions(lines, w).last().top + spec_regions(lines, w).last().height == lines.last().top_y
            + lines.last().height,
{
    let n: int = lines.len() as int;
    lemma_prefix_observed(lines, w, n);
    lemma_anchor_after_wf(lines, n);
    let st = anchor_after(lines, n);
    let before = regions_prefix(lines, w, n);
    let closing = closing_regions(lines, w);
    let jt = choose|j: int| 0 <= j < n && st.top_y == #[trigger] lines[j].top_y;
    assert forall|k: int|
        0 <= k < spec_regions(lines, w).len() implies exists|j: int|
        0 <= j < lines.len() && (#[trigger] spec_regions(lines, w)[k]).top
            == #[trigger] lines[j].top_y by {
        if k < before.len() {
            assert(spec_regions(lines, w)[k] == before[k]);
            let j1 = choose|j: int| 0 <= j < n && before[k].top == #[trigger] lines[j].top_y;
            assert(0 <= j1 < n && spec_regions(lines, w)[k].top == lines[j1].top_y);
        } else {
            assert(spec_regions(lines, w)[k] == closing[k - before.len()]);
            assert(closing[0].top == lines[jt].top_y);
            assert(closing[1].top == lines[n - 1].top_y);
        }
    }
    assert forall|k: int|
        0 <= k < spec_regions(lines, w).len() - 1 implies exists|j: int|
        0 <= j < lines.len() && (#[trigger] spec_regions(lines, w)[k]).top + spec_regions(
            lines,
            w,
        )[k].height == #[trigger] lines[j].top_y by {
        if k < before.len() {
            assert(spec_regions(lines, w)[k] == before[k]);
            let j2 = choose|j: int|
                0 <= j < n && before[k].top + before[k].height == #[trigger] lines[j].top_y;
            assert(0 <= j2 < n && spec_regions(lines, w)[k].top + spec_regions(lines, w)[k].height
                == lines[j2].top_y);
        } else {
            assert(spec_regions(lines, w)[k] == closing[0]);
            assert(closing[0].top + closing[0].height == lines[n - 1].top_y);
        }
    }
    assert(spec_regions(lines, w).last() == closing[1]);
}

proof fn lemma_prefix_positive_height(lines: Seq<LineModel>, w: int, i: int)
    requires
        wf_input(lines),
        forall|p: int, q: int|
            0 <= p < q < lines.len() ==> #[trigger] lines[p].top_y < #[trigger] lines[q].top_y,
        0 <= i <= lines.len(),
    ensures
        forall|k: int|
            0 <= k < regions_prefix(lines, w, i).len() ==> (#[trigger] regions_prefix(
                lines,
                w,
                i,
            )[k]).height > 0,
    decreases i,
{
    if i >= 1 {
        lemma_prefix_positive_height(lines, w, i - 1);
        lemma_anchor_after_wf(lines, i - 1);
        let st = anchor_after(lines, i - 1);
        let emitted = line_regions(st, lines[i - 1], w);
        let before = regions_prefix(lines, w, i - 1);
        assert forall|k: int|
            0 <= k < regions_prefix(lines, w, i).len() implies (#[trigger] regions_prefix(
            lines,
            w,
            i,
        )[k]).height > 0 by {
            if k < before.len() {
                assert(regions_prefix(lines, w, i)[k] == before[k]);
            } else {
                assert(regions_prefix(lines, w, i)[k] == emitted[k - before.len()]);
                if emitted.len() > 0 {
                    let jt = choose|j: int|
                        0 <= j < i - 1 && st.top_y == #[trigger] lines[j].top_y;
                    let jp = choose|j: int|
                        0 <= j < i - 1 && st.prev_y == #[trigger] lines[j].top_y;
                    assert(st.top_y < lines[i - 1].top_y && st.prev_y < lines[i - 1].top_y);
                }
            }
        }
    }
}

/// Law: when the line offsets are strictly increasing, every emitted region
/// has positive height, except possibly the closing question block — it
/// closes at the final line's own top edge, which the last question may
/// share (a single-line page shares it too).
pub proof fn lemma_regions_positive_height(lines: Seq<LineModel>, w: int)
    requires
        wf_input(lines),
        forall|p: int, q: int|
            0 <= p < q < lines.len() ==> #[trigger] lines[p].top_y < #[trigger] lines[q].top_y,
        lines.len() > 0,
    ensures
        forall|k: int|
            0 <= k < spec_regions(lines, w).len() - 2 ==> (#[trigger] spec_regions(
                lines,
                w,
            )[k]).height > 0,
        spec_regions(lines, w).last().height > 0,
{
    let n: int = lines.len() as int;
    lemma_prefix_positive_height(lines, w, n);
    let before = regions_prefix(lines, w, n);
    let closing = closing_regions(lines, w);
    assert forall|k: int|
        0 <= k < spec_regions(lines, w).len() - 2 implies (#[trigger] spec_regions(
        lines,
        w,
    )[k]).height > 0 by {
        assert(spec_regions(lines, w)[k] == before[k]);
    }
    assert(line_wf(lines[n - 1]));
    assert(spec_regions(lines, w).last() == closing[1]);
}

/// Law: every region the builder emits crops the full page width from the
/// left edge, at a non-negative top offset, with non-negative height, a
/// question index of at least one, and an answer index exactly on the
/// answer crops.
pub proof fn lemma_regions_shaped(lines: Seq<LineModel>, w: int)
    requires
        wf_input(lines),
    ensures
        forall|k: int|
            0 <= k < spec_regions(lines, w).len() ==> region_shape(
                #[trigger] spec_regions(lines, w)[k],
                w,
            ),
{
    if lines.len() > 0 {
        let n: int = lines.len() as int;
        lemma_prefix_shaped(lines, w, n);
        lemma_anchor_after_wf(lines, n);
        assert(line_wf(lines[n - 1]));
        let closing = closing_regions(lines, w);
        assert forall|k: int|
            0 <= k < spec_regions(lines, w).len() implies region_shape(
            spec_regions(lines, w)[k],
            w,
        ) by {
            if k >= regions_prefix(lines, w, n).len() {
                assert(spec_regions(lines, w)[k] == closing[k - regions_prefix(
                    lines,
                    w,
                    n,
                ).len()]);
            }
        }
    }
}

} // verus!
