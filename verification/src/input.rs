//! The line editor: text with atomic placeholders for pasted text and images.
//!
//! Positions inside an input count characters. Where a caller deals in byte
//! offsets, the offset of a position is the byte length of the text before it.
use crate::key::{KeyCode, KeyEvent};
use crate::text;
use crate::width;
use std::sync::Arc;
use vstd::prelude::*;

verus! {

/// The most images that one message may carry.
pub const MAX_USER_IMAGES: usize = 20;

/// A paste of at least this many characters is shown as a placeholder.
pub const PASTE_PLACEHOLDER_THRESHOLD_CHARS: usize = 256;

/// What is wrong with an input.
#[derive(Debug, PartialEq, Eq)]
pub enum InputError {
    InvalidUserImageInput { reason: String },
}

/// An image that waits in the draft.
#[derive(Debug, PartialEq, Eq)]
pub struct DraftImage {
    pub png_bytes: Arc<[u8]>,
    pub width: u32,
    pub height: u32,
}

/// `Arc::clone` hands out another owner of the same value.
#[verifier::external_body]
pub(crate) fn share_bytes(bytes: &Arc<[u8]>) -> (shared: Arc<[u8]>)
    ensures
        shared == *bytes,
{
    Arc::clone(bytes)
}

impl DraftImage {
    pub fn new(png_bytes: Arc<[u8]>, width: u32, height: u32) -> (image: DraftImage)
        ensures
            image == (DraftImage { png_bytes, width, height }),
    {
        DraftImage { png_bytes, width, height }
    }

    pub fn shared_png_bytes(&self) -> (bytes: Arc<[u8]>)
        ensures
            bytes == self.png_bytes,
    {
        share_bytes(&self.png_bytes)
    }

    pub fn width(&self) -> (w: u32)
        ensures
            w == self.width,
    {
        self.width
    }

    pub fn height(&self) -> (h: u32)
        ensures
            h == self.height,
    {
        self.height
    }
}

impl Clone for DraftImage {
    fn clone(&self) -> (image: Self)
        ensures
            image == *self,
    {
        DraftImage { png_bytes: share_bytes(&self.png_bytes), width: self.width, height: self.height }
    }
}

/// What a placeholder stands for.
#[derive(Debug, PartialEq, Eq)]
pub enum InputElementPayload {
    LargePaste { content: String },
    Image { image: DraftImage },
}

/// A placeholder in the text, from `start` up to `end`.
#[derive(Debug, PartialEq, Eq)]
pub struct InputElement {
    pub start: usize,
    pub end: usize,
    pub placeholder: String,
    pub payload: InputElementPayload,
}

/// What a placeholder stands for.
pub enum PayloadView {
    LargePaste(Seq<char>),
    Image(DraftImage),
}

/// A placeholder in the text.
pub struct ElementView {
    pub start: int,
    pub end: int,
    pub placeholder: Seq<char>,
    pub payload: PayloadView,
}

/// An input: its text, the cursor's position and the placeholders in order of insertion.
#[verifier::ext_equal]
pub struct InputView {
    pub text: Seq<char>,
    pub cursor: int,
    pub elements: Seq<ElementView>,
}

impl View for InputElementPayload {
    type V = PayloadView;

    open spec fn view(&self) -> PayloadView {
        match *self {
            InputElementPayload::LargePaste { content } => PayloadView::LargePaste(content@),
            InputElementPayload::Image { image } => PayloadView::Image(image),
        }
    }
}

impl View for InputElement {
    type V = ElementView;

    open spec fn view(&self) -> ElementView {
        ElementView {
            start: self.start as int,
            end: self.end as int,
            placeholder: self.placeholder@,
            payload: self.payload@,
        }
    }
}

pub open spec fn element_views(v: Seq<InputElement>) -> Seq<ElementView> {
    v.map_values(|e: InputElement| e@)
}

pub open spec fn is_image(e: ElementView) -> bool {
    e.payload is Image
}

/// The number of images among some placeholders.
pub open spec fn image_count(els: Seq<ElementView>) -> nat
    decreases els.len(),
{
    if els.len() == 0 {
        0
    } else {
        image_count(els.drop_last()) + if is_image(els.last()) { 1nat } else { 0nat }
    }
}

/// The label of the `n`th image.
pub open spec fn image_label(n: nat) -> Seq<char> {
    "[Image #"@ + text::decimal(n) + seq![']']
}

/// The placeholder of a paste of `n` characters.
pub open spec fn paste_label(n: nat) -> Seq<char> {
    "[pasted "@ + text::decimal(n) + " chars]"@
}

/// Every image carries the label of its rank among the images.
pub open spec fn labelled(els: Seq<ElementView>) -> bool
    decreases els.len(),
{
    els.len() > 0 ==> {
        &&& labelled(els.drop_last())
        &&& is_image(els.last()) ==> els.last().placeholder == image_label(
            image_count(els.drop_last()) + 1,
        )
    }
}

/// A placeholder lies within the text, is not empty, and the text shows it.
pub open spec fn in_text(text: Seq<char>, e: ElementView) -> bool {
    0 <= e.start < e.end <= text.len() && text.subrange(e.start, e.end) == e.placeholder
}

pub open spec fn apart(a: ElementView, b: ElementView) -> bool {
    a.end <= b.start || b.end <= a.start
}

/// The placeholders lie in the text, apart from each other.
pub open spec fn placed(text: Seq<char>, els: Seq<ElementView>) -> bool {
    &&& forall|i: int| 0 <= i < els.len() ==> in_text(text, #[trigger] els[i])
    &&& forall|i: int, j: int|
        0 <= i < j < els.len() ==> apart(#[trigger] els[i], #[trigger] els[j])
}

/// Position `p` lies strictly inside a placeholder.
pub open spec fn inside(e: ElementView, p: int) -> bool {
    e.start < p < e.end
}

impl InputView {
    /// The cursor lies in the text, never inside a placeholder; the placeholders lie
    /// in the text, apart from each other; the images are numbered in order of insertion.
    pub open spec fn well_formed(self) -> bool {
        &&& placed(self.text, self.elements)
        &&& self.cursor_in_place()
        &&& labelled(self.elements)
        &&& image_count(self.elements) <= MAX_USER_IMAGES
    }

    pub open spec fn cursor_in_place(self) -> bool {
        &&& 0 <= self.cursor <= self.text.len()
        &&& forall|i: int|
            0 <= i < self.elements.len() ==> !inside(#[trigger] self.elements[i], self.cursor)
    }
}

/// A position moved back to the start of the placeholder that it lies inside of.
pub open spec fn snap_down(els: Seq<ElementView>, p: int) -> int
    decreases els.len(),
{
    if els.len() == 0 {
        p
    } else if inside(els.last(), p) {
        els.last().start
    } else {
        snap_down(els.drop_last(), p)
    }
}

/// A position moved on to the end of the placeholder that it lies inside of.
pub open spec fn snap_up(els: Seq<ElementView>, p: int) -> int
    decreases els.len(),
{
    if els.len() == 0 {
        p
    } else if inside(els.last(), p) {
        els.last().end
    } else {
        snap_up(els.drop_last(), p)
    }
}

pub open spec fn overlaps(a: int, b: int, e: ElementView) -> bool {
    a < e.end && e.start < b
}

/// A placeholder after the stretch `a..b` before it has become `n` characters long.
pub open spec fn shifted(e: ElementView, a: int, b: int, n: int) -> ElementView {
    if e.start >= b {
        ElementView { start: e.start + n - (b - a), end: e.end + n - (b - a), ..e }
    } else {
        e
    }
}

/// The placeholders that an edit of `a..b` leaves, moved with their text.
pub open spec fn kept(els: Seq<ElementView>, a: int, b: int, n: int) -> Seq<ElementView>
    decreases els.len(),
{
    if els.len() == 0 {
        els
    } else if overlaps(a, b, els.last()) {
        kept(els.drop_last(), a, b, n)
    } else {
        kept(els.drop_last(), a, b, n).push(shifted(els.last(), a, b, n))
    }
}

/// Whether an edit of `a..b` removes an image.
pub open spec fn drops_image(els: Seq<ElementView>, a: int, b: int) -> bool {
    exists|i: int|
        0 <= i < els.len() && is_image(#[trigger] els[i]) && overlaps(a, b, els[i])
}

/// The input with placeholder `k` reading `label`; what stands behind it moves along, and the
/// cursor with it. A cursor that stayed where it was could lie behind the end of the text once
/// a label got shorter, as from the tenth image on.
pub open spec fn relabel(v: InputView, k: int, label: Seq<char>) -> InputView {
    let old = v.elements[k];
    InputView {
        text: v.text.take(old.start) + label + v.text.skip(old.end),
        cursor: if v.cursor >= old.end {
            v.cursor + label.len() - (old.end - old.start)
        } else {
            v.cursor
        },
        elements: Seq::new(
            v.elements.len(),
            |i: int|
                if i == k {
                    ElementView {
                        start: old.start,
                        end: old.start + label.len(),
                        placeholder: label,
                        payload: old.payload,
                    }
                } else {
                    shifted(v.elements[i], old.start, old.end, label.len() as int)
                },
        ),
    }
}

/// The input with the images from placeholder `k` on labelled anew, `seen` images before them.
pub open spec fn renumbered(v: InputView, k: int, seen: nat) -> InputView
    decreases v.elements.len() - k,
{
    if k < 0 || k >= v.elements.len() {
        v
    } else if is_image(v.elements[k]) {
        renumbered(relabel(v, k, image_label(seen + 1)), k + 1, seen + 1)
    } else {
        renumbered(v, k + 1, seen)
    }
}

/// The input after `from..to` has been replaced by `value`. A border inside a
/// placeholder moves out to its edge, so that placeholders go as a whole.
pub open spec fn edited(v: InputView, from: int, to: int, value: Seq<char>) -> InputView {
    let a = snap_down(v.elements, from);
    let b = snap_up(v.elements, to);
    let plain = InputView {
        text: v.text.take(a) + value + v.text.skip(b),
        cursor: a + value.len(),
        elements: kept(v.elements, a, b, value.len() as int),
    };
    if drops_image(v.elements, a, b) {
        renumbered(plain, 0, 0)
    } else {
        plain
    }
}

/// The empty input.
pub open spec fn empty_input() -> InputView {
    InputView { text: Seq::empty(), cursor: 0, elements: Seq::empty() }
}

/// An input of plain text with the cursor behind it.
pub open spec fn plain_input(text: Seq<char>) -> InputView {
    InputView { text, cursor: text.len() as int, elements: Seq::empty() }
}

proof fn lemma_snap_down(text: Seq<char>, els: Seq<ElementView>, p: int)
    requires
        placed(text, els),
    ensures
        snap_down(els, p) <= p,
        p >= 0 ==> snap_down(els, p) >= 0,
        snap_down(els, p) == p || exists|k: int|
            0 <= k < els.len() && inside(#[trigger] els[k], p) && snap_down(els, p) == els[k].start,
        forall|k: int| 0 <= k < els.len() ==> !inside(#[trigger] els[k], snap_down(els, p)),
        forall|k: int|
            0 <= k < els.len() && inside(#[trigger] els[k], p) ==> snap_down(els, p) == els[k].start,
    decreases els.len(),
{
    if els.len() > 0 {
        let init = els.drop_last();
        assert(placed(text, init)) by {
            assert forall|i: int| 0 <= i < init.len() implies in_text(text, #[trigger] init[i]) by {
                assert(init[i] == els[i]);
            }
            assert forall|i: int, j: int| 0 <= i < j < init.len() implies apart(
                #[trigger] init[i],
                #[trigger] init[j],
            ) by {
                assert(init[i] == els[i] && init[j] == els[j]);
            }
        }
        lemma_snap_down(text, init, p);
        let n = els.len() - 1;
        assert(els.last() == els[n]);
        assert forall|k: int| 0 <= k < n implies init[k] == #[trigger] els[k] by {}
        if !inside(els.last(), p) && snap_down(els, p) != p {
            let k = choose|k: int|
                0 <= k < init.len() && inside(#[trigger] init[k], p) && snap_down(init, p)
                    == init[k].start;
            assert(els[k] == init[k]);
        }
    }
}

proof fn lemma_snap_up(text: Seq<char>, els: Seq<ElementView>, p: int)
    requires
        placed(text, els),
    ensures
        snap_up(els, p) >= p,
        p <= text.len() ==> snap_up(els, p) <= text.len(),
        snap_up(els, p) == p || exists|k: int|
            0 <= k < els.len() && inside(#[trigger] els[k], p) && snap_up(els, p) == els[k].end,
        forall|k: int| 0 <= k < els.len() ==> !inside(#[trigger] els[k], snap_up(els, p)),
        forall|k: int|
            0 <= k < els.len() && inside(#[trigger] els[k], p) ==> snap_up(els, p) == els[k].end,
    decreases els.len(),
{
    if els.len() > 0 {
        let init = els.drop_last();
        assert(placed(text, init)) by {
            assert forall|i: int| 0 <= i < init.len() implies in_text(text, #[trigger] init[i]) by {
                assert(init[i] == els[i]);
            }
            assert forall|i: int, j: int| 0 <= i < j < init.len() implies apart(
                #[trigger] init[i],
                #[trigger] init[j],
            ) by {
                assert(init[i] == els[i] && init[j] == els[j]);
            }
        }
        lemma_snap_up(text, init, p);
        let n = els.len() - 1;
        assert(els.last() == els[n]);
        assert forall|k: int| 0 <= k < n implies init[k] == #[trigger] els[k] by {}
        if !inside(els.last(), p) && snap_up(els, p) != p {
            let k = choose|k: int|
                0 <= k < init.len() && inside(#[trigger] init[k], p) && snap_up(init, p)
                    == init[k].end;
            assert(els[k] == init[k]);
        }
    }
}

proof fn lemma_placed_prefix(text: Seq<char>, els: Seq<ElementView>)
    requires
        placed(text, els),
        els.len() > 0,
    ensures
        placed(text, els.drop_last()),
{
    let init = els.drop_last();
    assert forall|i: int| 0 <= i < init.len() implies in_text(text, #[trigger] init[i]) by {
        assert(init[i] == els[i]);
    }
    assert forall|i: int, j: int| 0 <= i < j < init.len() implies apart(
        #[trigger] init[i],
        #[trigger] init[j],
    ) by {
        assert(init[i] == els[i] && init[j] == els[j]);
    }
}

/// A placeholder clear of `a..b` still lies in the text after that stretch has been replaced.
proof fn lemma_shifted_in_text(text: Seq<char>, a: int, b: int, value: Seq<char>, e: ElementView)
    requires
        in_text(text, e),
        0 <= a <= b <= text.len(),
        e.end <= a || b <= e.start,
    ensures
        in_text(text.take(a) + value + text.skip(b), shifted(e, a, b, value.len() as int)),
{
    let t = text.take(a) + value + text.skip(b);
    let s = shifted(e, a, b, value.len() as int);
    assert(t.subrange(s.start, s.end) =~= text.subrange(e.start, e.end));
}

proof fn lemma_kept(text: Seq<char>, els: Seq<ElementView>, a: int, b: int, value: Seq<char>)
    requires
        placed(text, els),
        0 <= a <= b <= text.len(),
        forall|k: int| 0 <= k < els.len() ==> !inside(#[trigger] els[k], a),
        forall|k: int| 0 <= k < els.len() ==> !inside(#[trigger] els[k], b),
    ensures
        placed(text.take(a) + value + text.skip(b), kept(els, a, b, value.len() as int)),
        forall|j: int|
            0 <= j < kept(els, a, b, value.len() as int).len() ==> exists|i: int|
                0 <= i < els.len() && (els[i].end <= a || b <= els[i].start) && (
                #[trigger] kept(els, a, b, value.len() as int)[j]) == shifted(
                    #[trigger] els[i],
                    a,
                    b,
                    value.len() as int,
                ),
        kept(els, a, b, value.len() as int).len() <= els.len(),
    decreases els.len(),
{
    let n = value.len() as int;
    let t = text.take(a) + value + text.skip(b);
    if els.len() > 0 {
        let init = els.drop_last();
        lemma_placed_prefix(text, els);
        assert forall|k: int| 0 <= k < init.len() implies !inside(#[trigger] init[k], a) by {
            assert(init[k] == els[k]);
        }
        assert forall|k: int| 0 <= k < init.len() implies !inside(#[trigger] init[k], b) by {
            assert(init[k] == els[k]);
        }
        lemma_kept(text, init, a, b, value);
        let before = kept(init, a, b, n);
        let after = kept(els, a, b, n);
        assert forall|j: int| 0 <= j < before.len() implies exists|i: int|
            0 <= i < els.len() - 1 && (els[i].end <= a || b <= els[i].start) && (
            #[trigger] before[j]) == shifted(#[trigger] els[i], a, b, n) by {
            let i = choose|i: int|
                0 <= i < init.len() && (init[i].end <= a || b <= init[i].start) && (
                #[trigger] before[j]) == shifted(#[trigger] init[i], a, b, n);
            assert(els[i] == init[i]);
        }
        if !overlaps(a, b, els.last()) {
            let last = els.last();
            assert(last == els[els.len() - 1]);
            assert(!inside(els[els.len() - 1], a));
            assert(last.end <= a || b <= last.start);
            lemma_shifted_in_text(text, a, b, value, last);
            assert forall|j: int| 0 <= j < after.len() implies exists|i: int|
                0 <= i < els.len() && (els[i].end <= a || b <= els[i].start) && (
                #[trigger] after[j]) == shifted(#[trigger] els[i], a, b, n) by {
                if j < before.len() {
                    assert(after[j] == before[j]);
                } else {
                    assert(after[j] == shifted(els[els.len() - 1], a, b, n));
                }
            }
            assert forall|i: int, j: int| 0 <= i < j < after.len() implies apart(
                #[trigger] after[i],
                #[trigger] after[j],
            ) by {
                if j == before.len() {
                    assert(after[i] == before[i]);
                    let m = choose|m: int|
                        0 <= m < els.len() - 1 && (els[m].end <= a || b <= els[m].start) && (
                        #[trigger] before[i]) == shifted(#[trigger] els[m], a, b, n);
                    assert(apart(els[m], els[els.len() - 1]));
                } else {
                    assert(after[i] == before[i] && after[j] == before[j]);
                }
            }
            assert forall|i: int| 0 <= i < after.len() implies in_text(t, #[trigger] after[i]) by {
                if i < before.len() {
                    assert(after[i] == before[i]);
                }
            }
        }
    }
}

proof fn lemma_kept_images(els: Seq<ElementView>, a: int, b: int, n: int)
    ensures
        image_count(kept(els, a, b, n)) <= image_count(els),
        !drops_image(els, a, b) && labelled(els) ==> labelled(kept(els, a, b, n)) && image_count(
            kept(els, a, b, n),
        ) == image_count(els),
    decreases els.len(),
{
    if els.len() > 0 {
        let init = els.drop_last();
        lemma_kept_images(init, a, b, n);
        if !drops_image(els, a, b) {
            assert(!drops_image(init, a, b)) by {
                assert forall|i: int| 0 <= i < init.len() && is_image(#[trigger] init[i]) implies
                    !overlaps(a, b, init[i]) by {
                    assert(init[i] == els[i]);
                }
            }
            assert(is_image(els[els.len() - 1]) ==> !overlaps(a, b, els[els.len() - 1]));
        }
        if !overlaps(a, b, els.last()) {
            let before = kept(init, a, b, n);
            let after = kept(els, a, b, n);
            assert(after.drop_last() =~= before);
        }
    }
}

/// Two lists of placeholders with the same texts and payloads.
spec fn same_labels(x: Seq<ElementView>, y: Seq<ElementView>) -> bool {
    &&& x.len() == y.len()
    &&& forall|i: int|
        0 <= i < x.len() ==> (#[trigger] x[i]).placeholder == y[i].placeholder && x[i].payload
            == y[i].payload
}

proof fn lemma_same_labels(x: Seq<ElementView>, y: Seq<ElementView>)
    requires
        same_labels(x, y),
    ensures
        labelled(x) == labelled(y),
        image_count(x) == image_count(y),
    decreases x.len(),
{
    if x.len() > 0 {
        assert(same_labels(x.drop_last(), y.drop_last())) by {
            assert forall|i: int| 0 <= i < x.drop_last().len() implies (
            #[trigger] x.drop_last()[i]).placeholder == y.drop_last()[i].placeholder
                && x.drop_last()[i].payload == y.drop_last()[i].payload by {
                assert(x.drop_last()[i] == x[i]);
            }
        }
        lemma_same_labels(x.drop_last(), y.drop_last());
        assert(x[x.len() - 1].placeholder == y[y.len() - 1].placeholder);
    }
}

proof fn lemma_relabel(v: InputView, k: int, label: Seq<char>)
    requires
        placed(v.text, v.elements),
        v.cursor_in_place(),
        0 <= k < v.elements.len(),
        label.len() > 0,
    ensures
        ({
            let r = relabel(v, k, label);
            &&& placed(r.text, r.elements)
            &&& r.cursor_in_place()
            &&& r.elements.len() == v.elements.len()
            &&& r.text.len() == v.text.len() + label.len() - (v.elements[k].end
                - v.elements[k].start)
        }),
{
    let r = relabel(v, k, label);
    let old = v.elements[k];
    assert(in_text(v.text, old));
    assert(r.text.subrange(old.start, old.start + label.len()) =~= label);
    assert forall|i: int| 0 <= i < r.elements.len() implies in_text(
        r.text,
        #[trigger] r.elements[i],
    ) by {
        if i != k {
            assert(in_text(v.text, v.elements[i]));
            assert(apart(v.elements[i], old));
            lemma_shifted_in_text(v.text, old.start, old.end, label, v.elements[i]);
        }
    }
    assert forall|i: int, j: int| 0 <= i < j < r.elements.len() implies apart(
        #[trigger] r.elements[i],
        #[trigger] r.elements[j],
    ) by {
        assert(in_text(v.text, v.elements[i]));
        assert(in_text(v.text, v.elements[j]));
        assert(apart(v.elements[i], v.elements[j]));
        if i != k {
            assert(apart(v.elements[i], old));
        }
        if j != k {
            assert(apart(v.elements[j], old));
        }
    }
    assert forall|i: int| 0 <= i < r.elements.len() implies !inside(
        #[trigger] r.elements[i],
        r.cursor,
    ) by {
        assert(in_text(v.text, v.elements[i]));
        assert(!inside(v.elements[i], v.cursor));
        assert(!inside(v.elements[k], v.cursor));
        if i != k {
            assert(apart(v.elements[i], old));
        }
    }
}

proof fn lemma_renumbered(v: InputView, k: int, seen: nat)
    requires
        placed(v.text, v.elements),
        v.cursor_in_place(),
        0 <= k <= v.elements.len(),
        labelled(v.elements.take(k)),
        seen == image_count(v.elements.take(k)),
    ensures
        ({
            let r = renumbered(v, k, seen);
            &&& placed(r.text, r.elements)
            &&& r.cursor_in_place()
            &&& labelled(r.elements)
            &&& r.elements.len() == v.elements.len()
            &&& image_count(r.elements) == image_count(v.elements)
        }),
    decreases v.elements.len() - k,
{
    if k == v.elements.len() {
        assert(v.elements.take(k) =~= v.elements);
    } else if is_image(v.elements[k]) {
        let label = image_label(seen + 1);
        lemma_relabel(v, k, label);
        let r = relabel(v, k, label);
        assert(r.elements.take(k + 1).drop_last() =~= r.elements.take(k));
        assert(same_labels(r.elements.take(k), v.elements.take(k)));
        lemma_same_labels(r.elements.take(k), v.elements.take(k));
        assert(r.elements.take(k + 1).last() == r.elements[k]);
        lemma_renumbered(r, k + 1, seen + 1);
        lemma_same_kinds(r.elements, v.elements);
    } else {
        assert(v.elements.take(k + 1).drop_last() =~= v.elements.take(k));
        lemma_renumbered(v, k + 1, seen);
    }
}

proof fn lemma_same_kinds(x: Seq<ElementView>, y: Seq<ElementView>)
    requires
        x.len() == y.len(),
        forall|i: int| 0 <= i < x.len() ==> (#[trigger] x[i]).payload == y[i].payload,
    ensures
        image_count(x) == image_count(y),
    decreases x.len(),
{
    if x.len() > 0 {
        assert forall|i: int| 0 <= i < x.drop_last().len() implies (
        #[trigger] x.drop_last()[i]).payload == y.drop_last()[i].payload by {
            assert(x.drop_last()[i] == x[i]);
        }
        lemma_same_kinds(x.drop_last(), y.drop_last());
        assert(x[x.len() - 1].payload == y[y.len() - 1].payload);
    }
}

/// Every edit keeps an input well formed.
pub proof fn edits_keep_inputs_well_formed(v: InputView, from: int, to: int, value: Seq<char>)
    requires
        v.well_formed(),
        0 <= from <= to <= v.text.len(),
    ensures
        edited(v, from, to, value).well_formed(),
{
    let a = snap_down(v.elements, from);
    let b = snap_up(v.elements, to);
    let n = value.len() as int;
    lemma_snap_down(v.text, v.elements, from);
    lemma_snap_up(v.text, v.elements, to);
    lemma_kept(v.text, v.elements, a, b, value);
    lemma_kept_images(v.elements, a, b, n);
    let plain = InputView {
        text: v.text.take(a) + value + v.text.skip(b),
        cursor: a + n,
        elements: kept(v.elements, a, b, n),
    };
    assert forall|i: int| 0 <= i < plain.elements.len() implies !inside(
        #[trigger] plain.elements[i],
        plain.cursor,
    ) by {
        let m = choose|m: int|
            0 <= m < v.elements.len() && (v.elements[m].end <= a || b <= v.elements[m].start) && (
            #[trigger] kept(v.elements, a, b, n)[i]) == shifted(
                #[trigger] v.elements[m],
                a,
                b,
                n,
            );
    }
    assert(plain.cursor_in_place());
    if drops_image(v.elements, a, b) {
        assert(plain.elements.take(0) =~= Seq::<ElementView>::empty());
        lemma_renumbered(plain, 0, 0);
    }
}

/// The label of the `n`th image.
pub fn user_image_label(n: usize) -> (label: String)
    ensures
        label@ == image_label(n as nat),
{
    let mut label = "[Image #".to_owned();
    label.append(text::decimal_text(n as u64).as_str());
    label.push(']');
    proof {
        assert(label@ =~= image_label(n as nat));
    }
    label
}

fn paste_placeholder(n: usize) -> (label: String)
    ensures
        label@ == paste_label(n as nat),
{
    let mut label = "[pasted ".to_owned();
    label.append(text::decimal_text(n as u64).as_str());
    label.append(" chars]");
    label
}

/// The text without the word that it ends in.
pub open spec fn without_last_word(s: Seq<char>) -> Seq<char>
    decreases s.len(),
{
    if s.len() == 0 || text::is_space(s.last()) {
        s
    } else {
        without_last_word(s.drop_last())
    }
}

/// Where the last word of a text begins; white space behind it counts as part of it.
pub open spec fn last_word_start(s: Seq<char>) -> nat {
    without_last_word(text::trim_end(s)).len()
}

/// What a placeholder contributes to the text that is sent.
pub open spec fn expansion(e: ElementView, include_images: bool) -> Seq<char> {
    match e.payload {
        PayloadView::LargePaste(content) => content,
        PayloadView::Image(_) => if include_images {
            e.placeholder
        } else {
            Seq::empty()
        },
    }
}

/// The placeholder that begins at `p`.
pub open spec fn starting_at(els: Seq<ElementView>, p: int) -> Option<ElementView>
    decreases els.len(),
{
    if els.len() == 0 {
        None
    } else if els.last().start == p {
        Some(els.last())
    } else {
        starting_at(els.drop_last(), p)
    }
}

/// The text from position `p` on with every placeholder replaced by what it stands for.
pub open spec fn rendered_from(v: InputView, p: int, include_images: bool) -> Seq<char>
    decreases v.text.len() - p,
{
    if p < 0 || p >= v.text.len() {
        Seq::empty()
    } else {
        match starting_at(v.elements, p) {
            Some(e) => if e.end <= p || e.end > v.text.len() {
                Seq::empty()
            } else {
                expansion(e, include_images) + rendered_from(v, e.end, include_images)
            },
            None => seq![v.text[p]] + rendered_from(v, p + 1, include_images),
        }
    }
}

/// The text with every placeholder replaced by what it stands for; an image keeps its
/// label or goes, as `include_images` says.
pub open spec fn rendered(v: InputView, include_images: bool) -> Seq<char> {
    rendered_from(v, 0, include_images)
}

/// The images in order of insertion, each with its label.
pub open spec fn images_of(els: Seq<ElementView>) -> Seq<(Seq<char>, DraftImage)>
    decreases els.len(),
{
    if els.len() == 0 {
        Seq::empty()
    } else {
        let init = images_of(els.drop_last());
        match els.last().payload {
            PayloadView::Image(image) => init.push((image_label(init.len() + 1), image)),
            PayloadView::LargePaste(_) => init,
        }
    }
}

/// An image that goes out with a message.
#[derive(Debug, PartialEq, Eq)]
pub struct UserImageInput {
    label: String,
    image: DraftImage,
}

impl View for UserImageInput {
    type V = (Seq<char>, DraftImage);

    closed spec fn view(&self) -> (Seq<char>, DraftImage) {
        (self.label@, self.image)
    }
}

impl UserImageInput {
    pub fn png(label: String, image: DraftImage) -> (r: UserImageInput)
        ensures
            r@ == (label@, image),
    {
        UserImageInput { label, image }
    }

    pub fn label(&self) -> (label: &str)
        ensures
            label@ == self@.0,
    {
        self.label.as_str()
    }

    pub fn image(&self) -> (image: &DraftImage)
        ensures
            *image == self@.1,
    {
        &self.image
    }

    pub fn png_bytes(&self) -> (bytes: Arc<[u8]>)
        ensures
            bytes == self@.1.png_bytes,
    {
        self.image.shared_png_bytes()
    }
}

pub open spec fn image_views(v: Seq<UserImageInput>) -> Seq<(Seq<char>, DraftImage)> {
    v.map_values(|i: UserImageInput| i@)
}

/// A message that is ready to be sent.
#[derive(Debug, PartialEq, Eq)]
pub struct TuiSubmission {
    pub text: String,
    pub history_text: String,
    pub images: Vec<UserImageInput>,
}

/// The message that an input holds.
pub open spec fn is_submission_of(sub: TuiSubmission, v: InputView) -> bool {
    &&& sub.text@ == rendered(v, true)
    &&& sub.history_text@ == rendered(v, false)
    &&& image_views(sub.images@) == images_of(v.elements)
}

/// The part of an input that is on screen.
#[derive(Debug, PartialEq, Eq)]
pub struct TextInputViewport {
    pub text: String,
    pub image_placeholders: Vec<String>,
    pub cursor_column: usize,
    pub cursor_row: usize,
    pub visible_rows: usize,
}

/// A line of text under edit.
#[derive(Debug, PartialEq, Eq)]
pub struct TextInput {
    text: String,
    cursor: usize,
    elements: Vec<InputElement>,
}

impl View for TextInput {
    type V = InputView;

    closed spec fn view(&self) -> InputView {
        InputView {
            text: self.text@,
            cursor: self.cursor as int,
            elements: element_views(self.elements@),
        }
    }
}

impl Default for TextInput {
    fn default() -> (input: Self)
        ensures
            input@ == empty_input(),
            input@.well_formed(),
    {
        let input = TextInput { text: String::new(), cursor: 0, elements: Vec::new() };
        proof {
            assert(input@ =~= empty_input());
        }
        input
    }
}

fn snap_down_to_edge(els: &Vec<InputElement>, p: usize) -> (r: usize)
    ensures
        r == snap_down(element_views(els@), p as int),
{
    let mut i: usize = els.len();
    proof {
        assert(element_views(els@).take(i as int) =~= element_views(els@));
    }
    while i > 0
        invariant
            i <= els@.len(),
            snap_down(element_views(els@), p as int) == snap_down(
                element_views(els@).take(i as int),
                p as int,
            ),
        decreases i,
    {
        proof {
            let t = element_views(els@).take(i as int);
            assert(t.last() == els@[i - 1]@);
            assert(t.drop_last() =~= element_views(els@).take(i - 1));
        }
        if els[i - 1].start < p && p < els[i - 1].end {
            return els[i - 1].start;
        }
        i -= 1;
    }
    p
}

fn snap_up_to_edge(els: &Vec<InputElement>, p: usize) -> (r: usize)
    ensures
        r == snap_up(element_views(els@), p as int),
{
    let mut i: usize = els.len();
    proof {
        assert(element_views(els@).take(i as int) =~= element_views(els@));
    }
    while i > 0
        invariant
            i <= els@.len(),
            snap_up(element_views(els@), p as int) == snap_up(
                element_views(els@).take(i as int),
                p as int,
            ),
        decreases i,
    {
        proof {
            let t = element_views(els@).take(i as int);
            assert(t.last() == els@[i - 1]@);
            assert(t.drop_last() =~= element_views(els@).take(i - 1));
        }
        if els[i - 1].start < p && p < els[i - 1].end {
            return els[i - 1].end;
        }
        i -= 1;
    }
    p
}

/// Whether two stretches have a character in common, or one lies within the other.
pub fn ranges_overlap(from: usize, to: usize, start: usize, end: usize) -> (r: bool)
    ensures
        r == (from < end && start < to),
{
    from < end && start < to
}

/// Where an index behind a stretch of `old_len` lands once it is `new_len` long.
pub fn shifted_index(index: usize, old_len: usize, new_len: usize) -> (r: usize)
    requires
        old_len <= index,
        index - old_len + new_len <= usize::MAX,
    ensures
        r == index + new_len - old_len,
{
    if new_len >= old_len {
        index + (new_len - old_len)
    } else {
        index - (old_len - new_len)
    }
}

fn payload_is_image(payload: &InputElementPayload) -> (r: bool)
    ensures
        r == (payload@ is Image),
{
    match payload {
        InputElementPayload::Image { .. } => true,
        InputElementPayload::LargePaste { .. } => false,
    }
}

impl TextInput {
    /// The stretch that an edit of `from..to` takes away: a border inside a
    /// placeholder moves out to its edge.
    pub fn expanded_edit_range(&self, from: usize, to: usize) -> (r: (usize, usize))
        requires
            self@.well_formed(),
            from <= to <= self@.text.len(),
        ensures
            r.0 == snap_down(self@.elements, from as int),
            r.1 == snap_up(self@.elements, to as int),
            r.0 <= from,
            to <= r.1 <= self@.text.len(),
            forall|k: int|
                0 <= k < self@.elements.len() ==> !inside(#[trigger] self@.elements[k], r.0 as int),
            forall|k: int|
                0 <= k < self@.elements.len() ==> !inside(#[trigger] self@.elements[k], r.1 as int),
    {
        proof {
            lemma_snap_down(self@.text, self@.elements, from as int);
            lemma_snap_up(self@.text, self@.elements, to as int);
        }
        (snap_down_to_edge(&self.elements, from), snap_up_to_edge(&self.elements, to))
    }

    /// Replaces `from..to` by `value`; a placeholder that the edit touches goes as a whole.
    pub fn replace_range_atomic(&mut self, from: usize, to: usize, value: &str)
        requires
            old(self)@.well_formed(),
            from <= to <= old(self)@.text.len(),
        ensures
            final(self)@ == edited(old(self)@, from as int, to as int, value@),
            final(self)@.well_formed(),
    {
        let ghost v = self@;
        let chars = text::chars_of(self.text.as_str());
        let value_chars = text::chars_of(value);
        let (a, b) = self.expanded_edit_range(from, to);
        proof {
            edits_keep_inputs_well_formed(v, from as int, to as int, value@);
            lemma_kept(v.text, v.elements, a as int, b as int, value@);
            lemma_kept_images(v.elements, a as int, b as int, value@.len() as int);
        }
        let edited_chars = text::splice(&chars, a, b, &value_chars);
        let n: usize = value_chars.len();
        let total: usize = edited_chars.len();
        self.text = text::whole_text(&edited_chars);
        self.cursor = a + n;
        let mut taken: Vec<InputElement> = Vec::new();
        std::mem::swap(&mut taken, &mut self.elements);
        let ghost all = taken@;
        let mut retained: Vec<InputElement> = Vec::new();
        let mut removed_image = false;
        proof {
            assert(element_views(all).take(0) =~= Seq::<ElementView>::empty());
            assert(element_views(retained@) =~= Seq::<ElementView>::empty());
        }
        for element in iter: taken
            invariant
                iter.seq() == all,
                v.elements == element_views(all),
                placed(v.text, v.elements),
                a <= b <= v.text.len(),
                total == v.text.len() - (b - a) + n,
                n == value@.len(),
                element_views(retained@) == kept(
                    v.elements.take(iter.index() as int),
                    a as int,
                    b as int,
                    n as int,
                ),
                removed_image == drops_image(
                    v.elements.take(iter.index() as int),
                    a as int,
                    b as int,
                ),
        {
            let ghost i = iter.index() as int;
            let ghost done = v.elements.take(i);
            let ghost more = v.elements.take(i + 1);
            let ghost kept_before = retained@;
            let ghost removed_before = removed_image;
            proof {
                assert(more.drop_last() =~= done);
                assert(more.last() == element@);
                assert(in_text(v.text, v.elements[i]));
            }
            if ranges_overlap(a, b, element.start, element.end) {
                if payload_is_image(&element.payload) {
                    removed_image = true;
                    proof {
                        assert(is_image(more[i]));
                    }
                }
            } else {
                let mut element = element;
                let ghost before = element@;
                if element.start >= b {
                    element.start = shifted_index(element.start, b - a, n);
                    element.end = shifted_index(element.end, b - a, n);
                }
                proof {
                    assert(element@ == shifted(before, a as int, b as int, n as int));
                }
                retained.push(element);
                proof {
                    assert(element_views(retained@) =~= element_views(kept_before).push(
                        shifted(before, a as int, b as int, n as int),
                    ));
                }
            }
            proof {
                assert forall|k: int| 0 <= k < done.len() implies done[k] == #[trigger] more[k] by {}
                if removed_before {
                    let k = choose|k: int|
                        0 <= k < done.len() && is_image(#[trigger] done[k]) && overlaps(
                            a as int,
                            b as int,
                            done[k],
                        );
                    assert(is_image(more[k]));
                }
            }
        }
        proof {
            assert(v.elements.take(v.elements.len() as int) =~= v.elements);
        }
        self.elements = retained;
        if removed_image {
            self.renumber_images();
        }
    }

    /// Labels the images anew, in order of insertion.
    fn renumber_images(&mut self)
        requires
            placed(old(self)@.text, old(self)@.elements),
            old(self)@.cursor_in_place(),
        ensures
            final(self)@ == renumbered(old(self)@, 0, 0),
    {
        let ghost start = self@;
        let mut seen: usize = 0;
        let mut k: usize = 0;
        while k < self.elements.len()
            invariant
                k <= self.elements@.len(),
                seen <= k,
                placed(self@.text, self@.elements),
                self@.cursor_in_place(),
                renumbered(start, 0, 0) == renumbered(self@, k as int, seen as nat),
            decreases self.elements@.len() - k,
        {
            proof {
                assert(self@.elements[k as int] == self.elements@[k as int]@);
            }
            if payload_is_image(&self.elements[k].payload) {
                seen += 1;
                let label = user_image_label(seen);
                self.relabel_element(k, label);
            }
            k += 1;
        }
    }

    fn relabel_element(&mut self, k: usize, label: String)
        requires
            placed(old(self)@.text, old(self)@.elements),
            old(self)@.cursor_in_place(),
            k < old(self)@.elements.len(),
            label@.len() > 0,
        ensures
            final(self)@ == relabel(old(self)@, k as int, label@),
            placed(final(self)@.text, final(self)@.elements),
            final(self)@.cursor_in_place(),
            final(self)@.elements.len() == old(self)@.elements.len(),
    {
        let ghost v = self@;
        proof {
            lemma_relabel(v, k as int, label@);
            assert(v.elements[k as int] == self.elements@[k as int]@);
            assert(in_text(v.text, v.elements[k as int]));
        }
        let old_start: usize = self.elements[k].start;
        let old_end: usize = self.elements[k].end;
        let chars = text::chars_of(self.text.as_str());
        let label_chars = text::chars_of(label.as_str());
        let n: usize = label_chars.len();
        let edited_chars = text::splice(&chars, old_start, old_end, &label_chars);
        let total: usize = edited_chars.len();
        self.text = text::whole_text(&edited_chars);
        if self.cursor >= old_end {
            self.cursor = shifted_index(self.cursor, old_end - old_start, n);
        }
        let ghost goal = relabel(v, k as int, label@);
        let ghost cursor = self.cursor;
        let ghost shown = self.text@;
        let mut i: usize = 0;
        while i < self.elements.len()
            invariant
                self.cursor == cursor,
                self.text@ == shown,
                i <= self.elements@.len(),
                self.elements@.len() == v.elements.len(),
                k < v.elements.len(),
                placed(v.text, v.elements),
                old_start == v.elements[k as int].start,
                old_end == v.elements[k as int].end,
                n == label@.len(),
                total == v.text.len() + n - (old_end - old_start),
                goal == relabel(v, k as int, label@),
                forall|j: int| i <= j < v.elements.len() ==> (#[trigger] self.elements@[j])@ == v.elements[j],
                forall|j: int|
                    0 <= j < i && j != k ==> (#[trigger] self.elements@[j])@ == goal.elements[j],
                k < i ==> self.elements@[k as int]@ == v.elements[k as int],
            decreases v.elements.len() - i,
        {
            proof {
                assert(in_text(v.text, v.elements[i as int]));
                assert(self.elements@[i as int]@ == v.elements[i as int]);
            }
            if i != k && self.elements[i].start >= old_end {
                self.elements[i].start = shifted_index(
                    self.elements[i].start,
                    old_end - old_start,
                    n,
                );
                self.elements[i].end = shifted_index(self.elements[i].end, old_end - old_start, n);
            }
            i += 1;
        }
        self.elements[k].end = old_start + n;
        self.elements[k].placeholder = label;
        proof {
            assert(self@.elements =~= goal.elements) by {
                assert forall|j: int| 0 <= j < v.elements.len() implies (
                #[trigger] self@.elements[j]) == goal.elements[j] by {
                    assert(self@.elements[j] == self.elements@[j]@);
                }
            }
        }
    }
}

impl TextInput {
    pub fn text(&self) -> (r: &str)
        ensures
            r@ == self@.text,
    {
        self.text.as_str()
    }

    /// The text, where it holds no placeholder.
    pub fn plain_text(&self) -> (r: Option<&str>)
        ensures
            r is Some <==> self@.elements.len() == 0,
            r matches Some(t) ==> t@ == self@.text,
    {
        if self.elements.len() == 0 {
            Some(self.text.as_str())
        } else {
            None
        }
    }

    /// The cursor's offset in bytes.
    pub fn cursor_byte_index(&self) -> (r: usize)
        requires
            self@.well_formed(),
        ensures
            r == text::byte_len(self@.text.take(self@.cursor)),
    {
        let chars = text::chars_of(self.text.as_str());
        text::len_in_bytes(text::text_of(&chars, 0, self.cursor).as_str())
    }

    /// The columns of the text before the cursor.
    pub fn cursor_column(&self) -> (r: usize)
        requires
            self@.well_formed(),
        ensures
            r == width::unicode_text_width(self@.text.take(self@.cursor)),
    {
        let chars = text::chars_of(self.text.as_str());
        width::text_width(text::text_of(&chars, 0, self.cursor).as_str())
    }

    pub fn insert_char(&mut self, value: char)
        requires
            old(self)@.well_formed(),
        ensures
            final(self)@ == edited(old(self)@, old(self)@.cursor, old(self)@.cursor, seq![value]),
            final(self)@.well_formed(),
    {
        let mut encoded = String::new();
        encoded.push(value);
        proof {
            assert(encoded@ =~= seq![value]);
        }
        self.insert_str(encoded.as_str());
    }

    pub fn insert_str(&mut self, value: &str)
        requires
            old(self)@.well_formed(),
        ensures
            final(self)@ == edited(old(self)@, old(self)@.cursor, old(self)@.cursor, value@),
            final(self)@.well_formed(),
    {
        self.replace_range_atomic(self.cursor, self.cursor, value);
    }

    pub fn insert_newline(&mut self)
        requires
            old(self)@.well_formed(),
        ensures
            final(self)@ == edited(old(self)@, old(self)@.cursor, old(self)@.cursor, seq!['\n']),
            final(self)@.well_formed(),
    {
        self.insert_char('\n');
    }

    /// Inserts a placeholder at the cursor.
    fn insert_element(&mut self, placeholder: String, payload: InputElementPayload)
        requires
            old(self)@.well_formed(),
            placeholder@.len() > 0,
            payload@ is Image ==> placeholder@ == image_label(
                image_count(old(self)@.elements) + 1,
            ) && image_count(old(self)@.elements) < MAX_USER_IMAGES,
        ensures
            final(self)@ == with_element(old(self)@, placeholder@, payload@),
            final(self)@.well_formed(),
    {
        let ghost v = self@;
        proof {
            lemma_with_element(v, placeholder@, payload@);
        }
        let from: usize = self.cursor;
        self.insert_str(placeholder.as_str());
        let end: usize = self.cursor;
        let ghost els = self.elements@;
        self.elements.push(InputElement { start: from, end, placeholder, payload });
        proof {
            assert(self@.elements =~= element_views(els).push(
                ElementView {
                    start: v.cursor,
                    end: v.cursor + placeholder@.len(),
                    placeholder: placeholder@,
                    payload: payload@,
                },
            ));
        }
    }

    /// Inserts pasted text; a long paste shows as a placeholder.
    pub fn insert_paste(&mut self, value: &str)
        requires
            old(self)@.well_formed(),
        ensures
            final(self)@ == (if value@.len() < PASTE_PLACEHOLDER_THRESHOLD_CHARS {
                edited(old(self)@, old(self)@.cursor, old(self)@.cursor, value@)
            } else {
                with_element(
                    old(self)@,
                    paste_label(value@.len()),
                    PayloadView::LargePaste(value@),
                )
            }),
            final(self)@.well_formed(),
    {
        let char_count: usize = text::chars_of(value).len();
        if char_count < PASTE_PLACEHOLDER_THRESHOLD_CHARS {
            self.insert_str(value);
            return ;
        }
        let placeholder = paste_placeholder(char_count);
        proof {
            lemma_decimal_nonempty(char_count as nat);
        }
        self.insert_element(
            placeholder,
            InputElementPayload::LargePaste { content: value.to_owned() },
        );
    }

    /// The number of images in the text.
    pub fn image_count(&self) -> (n: usize)
        ensures
            n == image_count(self@.elements),
    {
        let mut n: usize = 0;
        let mut i: usize = 0;
        proof {
            assert(element_views(self.elements@).take(0) =~= Seq::<ElementView>::empty());
        }
        while i < self.elements.len()
            invariant
                i <= self.elements@.len(),
                n <= i,
                n == image_count(element_views(self.elements@).take(i as int)),
            decreases self.elements@.len() - i,
        {
            proof {
                let t = element_views(self.elements@).take(i + 1);
                assert(t.drop_last() =~= element_views(self.elements@).take(i as int));
                assert(t.last() == self.elements@[i as int]@);
            }
            if payload_is_image(&self.elements[i].payload) {
                n += 1;
            }
            i += 1;
        }
        proof {
            assert(element_views(self.elements@).take(i as int) =~= element_views(self.elements@));
        }
        n
    }

    /// Inserts an image; one message takes only so many.
    pub fn insert_image(&mut self, image: DraftImage) -> (r: Result<(), InputError>)
        requires
            old(self)@.well_formed(),
        ensures
            r is Ok <==> image_count(old(self)@.elements) < MAX_USER_IMAGES,
            r is Ok ==> final(self)@ == with_element(
                old(self)@,
                image_label(image_count(old(self)@.elements) + 1),
                PayloadView::Image(image),
            ),
            r matches Err(InputError::InvalidUserImageInput { reason }) ==> final(self)@ == old(
                self,
            )@ && reason@ == "one user message may contain at most 20 images"@,
            final(self)@.well_formed(),
    {
        let count: usize = self.image_count();
        if count >= MAX_USER_IMAGES {
            return Err(
                InputError::InvalidUserImageInput {
                    reason: "one user message may contain at most 20 images".to_owned(),
                },
            );
        }
        let placeholder = user_image_label(count + 1);
        self.insert_element(placeholder, InputElementPayload::Image { image });
        Ok(())
    }

    pub fn replace_text(&mut self, value: String)
        ensures
            final(self)@ == plain_input(value@),
            final(self)@.well_formed(),
    {
        self.cursor = text::chars_of(value.as_str()).len();
        self.text = value;
        self.elements = Vec::new();
        proof {
            assert(self@ =~= plain_input(value@));
        }
    }

    /// Replaces the bytes `start..end`. An offset beyond the text or inside a
    /// character changes nothing.
    pub fn replace_range(&mut self, start: usize, end: usize, value: &str)
        requires
            old(self)@.well_formed(),
        ensures
            final(self)@ == (if start <= end && text::is_boundary(old(self)@.text, start as int)
                && text::is_boundary(old(self)@.text, end as int) {
                edited(
                    old(self)@,
                    text::index_at_byte(old(self)@.text, start as int) as int,
                    text::index_at_byte(old(self)@.text, end as int) as int,
                    value@,
                )
            } else {
                old(self)@
            }),
            final(self)@.well_formed(),
    {
        let chars = text::chars_of(self.text.as_str());
        if start > end {
            return ;
        }
        match (text::char_index(&chars, start), text::char_index(&chars, end)) {
            (Some(from), Some(to)) => {
                proof {
                    text::lemma_index_at_byte_range(self@.text, start as int);
                    text::lemma_index_at_byte_range(self@.text, end as int);
                    text::lemma_index_at_byte_monotonic(self@.text, start as int, end as int);
                }
                self.replace_range_atomic(from, to, value);
            },
            _ => {},
        }
    }

    pub fn backspace(&mut self)
        requires
            old(self)@.well_formed(),
        ensures
            final(self)@ == (if old(self)@.cursor == 0 {
                old(self)@
            } else {
                edited(old(self)@, old(self)@.cursor - 1, old(self)@.cursor, Seq::empty())
            }),
            final(self)@.well_formed(),
    {
        if self.cursor == 0 {
            return ;
        }
        let none = String::new();
        self.replace_range_atomic(self.cursor - 1, self.cursor, none.as_str());
    }

    pub fn delete(&mut self)
        requires
            old(self)@.well_formed(),
        ensures
            final(self)@ == (if old(self)@.cursor == old(self)@.text.len() {
                old(self)@
            } else {
                edited(old(self)@, old(self)@.cursor, old(self)@.cursor + 1, Seq::empty())
            }),
            final(self)@.well_formed(),
    {
        let len: usize = text::chars_of(self.text.as_str()).len();
        if self.cursor >= len {
            return ;
        }
        let none = String::new();
        self.replace_range_atomic(self.cursor, self.cursor + 1, none.as_str());
    }

    pub fn delete_before_cursor(&mut self)
        requires
            old(self)@.well_formed(),
        ensures
            final(self)@ == edited(old(self)@, 0, old(self)@.cursor, Seq::empty()),
            final(self)@.well_formed(),
    {
        let none = String::new();
        self.replace_range_atomic(0, self.cursor, none.as_str());
    }

    pub fn delete_after_cursor(&mut self)
        requires
            old(self)@.well_formed(),
        ensures
            final(self)@ == edited(
                old(self)@,
                old(self)@.cursor,
                old(self)@.text.len() as int,
                Seq::empty(),
            ),
            final(self)@.well_formed(),
    {
        let none = String::new();
        let len: usize = text::chars_of(self.text.as_str()).len();
        self.replace_range_atomic(self.cursor, len, none.as_str());
    }

    /// Deletes back to the beginning of the word before the cursor.
    pub fn delete_previous_word(&mut self)
        requires
            old(self)@.well_formed(),
        ensures
            final(self)@ == (if old(self)@.cursor == 0 {
                old(self)@
            } else {
                edited(
                    old(self)@,
                    last_word_start(old(self)@.text.take(old(self)@.cursor)) as int,
                    old(self)@.cursor,
                    Seq::empty(),
                )
            }),
            final(self)@.well_formed(),
    {
        if self.cursor == 0 {
            return ;
        }
        let chars = text::chars_of(self.text.as_str());
        let start: usize = word_start(&chars, self.cursor);
        let none = String::new();
        self.replace_range_atomic(start, self.cursor, none.as_str());
    }

    /// The placeholder that the cursor stands behind or in.
    pub fn atomic_range_for_left(&self) -> (r: Option<(usize, usize)>)
        ensures
            r matches Some(range) ==> exists|k: int|
                0 <= k < self@.elements.len() && (#[trigger] self@.elements[k]).start
                    < self@.cursor <= self@.elements[k].end && range.0 == self@.elements[k].start
                    && range.1 == self@.elements[k].end,
            r is None ==> forall|k: int|
                0 <= k < self@.elements.len() ==> !((#[trigger] self@.elements[k]).start
                    < self@.cursor <= self@.elements[k].end),
    {
        let mut i: usize = 0;
        while i < self.elements.len()
            invariant
                i <= self.elements@.len(),
                forall|k: int|
                    0 <= k < i ==> !((#[trigger] self@.elements[k]).start < self@.cursor
                        <= self@.elements[k].end),
            decreases self.elements@.len() - i,
        {
            proof {
                assert(self@.elements[i as int] == self.elements@[i as int]@);
            }
            if self.elements[i].start < self.cursor && self.cursor <= self.elements[i].end {
                return Some((self.elements[i].start, self.elements[i].end));
            }
            i += 1;
        }
        None
    }

    /// The placeholder that the cursor stands before or in.
    pub fn atomic_range_for_right(&self) -> (r: Option<(usize, usize)>)
        ensures
            r matches Some(range) ==> exists|k: int|
                0 <= k < self@.elements.len() && (#[trigger] self@.elements[k]).start
                    <= self@.cursor < self@.elements[k].end && range.0 == self@.elements[k].start
                    && range.1 == self@.elements[k].end,
            r is None ==> forall|k: int|
                0 <= k < self@.elements.len() ==> !((#[trigger] self@.elements[k]).start
                    <= self@.cursor < self@.elements[k].end),
    {
        let mut i: usize = 0;
        while i < self.elements.len()
            invariant
                i <= self.elements@.len(),
                forall|k: int|
                    0 <= k < i ==> !((#[trigger] self@.elements[k]).start <= self@.cursor
                        < self@.elements[k].end),
            decreases self.elements@.len() - i,
        {
            proof {
                assert(self@.elements[i as int] == self.elements@[i as int]@);
            }
            if self.elements[i].start <= self.cursor && self.cursor < self.elements[i].end {
                return Some((self.elements[i].start, self.elements[i].end));
            }
            i += 1;
        }
        None
    }

    /// Moves the cursor one character to the left, over a placeholder in one step.
    pub fn move_left(&mut self)
        requires
            old(self)@.well_formed(),
        ensures
            final(self)@ == moved(old(self)@, left_of(old(self)@)),
            final(self)@.well_formed(),
    {
        let ghost v = self@;
        proof {
            lemma_left_of(v);
        }
        if self.cursor == 0 {
            return ;
        }
        match self.atomic_range_for_left() {
            Some(range) => {
                self.cursor = range.0;
            },
            None => {
                self.cursor = self.cursor - 1;
            },
        }
    }

    /// Moves the cursor one character to the right, over a placeholder in one step.
    pub fn move_right(&mut self)
        requires
            old(self)@.well_formed(),
        ensures
            final(self)@ == moved(old(self)@, right_of(old(self)@)),
            final(self)@.well_formed(),
    {
        let ghost v = self@;
        proof {
            lemma_right_of(v);
        }
        let len: usize = text::chars_of(self.text.as_str()).len();
        if self.cursor >= len {
            return ;
        }
        match self.atomic_range_for_right() {
            Some(range) => {
                self.cursor = range.1;
            },
            None => {
                self.cursor = self.cursor + 1;
            },
        }
    }

    pub fn move_home(&mut self)
        requires
            old(self)@.well_formed(),
        ensures
            final(self)@ == moved(old(self)@, 0),
            final(self)@.well_formed(),
    {
        proof {
            lemma_ends_in_place(self@);
        }
        self.cursor = 0;
    }

    pub fn move_end(&mut self)
        requires
            old(self)@.well_formed(),
        ensures
            final(self)@ == moved(old(self)@, old(self)@.text.len() as int),
            final(self)@.well_formed(),
    {
        proof {
            lemma_ends_in_place(self@);
        }
        self.cursor = text::chars_of(self.text.as_str()).len();
    }

    pub fn clear(&mut self)
        ensures
            final(self)@ == empty_input(),
            final(self)@.well_formed(),
    {
        self.text = String::new();
        self.cursor = 0;
        self.elements = Vec::new();
        proof {
            assert(self@ =~= empty_input());
        }
    }

    /// The images in order of insertion.
    pub fn image_elements(&self) -> (r: Vec<&InputElement>)
        ensures
            borrowed_views(r@) == only_images(self@.elements),
    {
        let mut r: Vec<&InputElement> = Vec::new();
        let mut i: usize = 0;
        proof {
            assert(self@.elements.take(0) =~= Seq::<ElementView>::empty());
            assert(borrowed_views(r@) =~= only_images(self@.elements.take(0)));
        }
        while i < self.elements.len()
            invariant
                i <= self.elements@.len(),
                borrowed_views(r@) == only_images(self@.elements.take(i as int)),
            decreases self.elements@.len() - i,
        {
            let ghost before = r@;
            proof {
                let t = self@.elements.take(i + 1);
                assert(t.drop_last() =~= self@.elements.take(i as int));
                assert(t.last() == self.elements@[i as int]@);
            }
            if payload_is_image(&self.elements[i].payload) {
                r.push(&self.elements[i]);
                proof {
                    assert(borrowed_views(r@) =~= borrowed_views(before).push(
                        self.elements@[i as int]@,
                    ));
                }
            }
            i += 1;
        }
        proof {
            assert(self@.elements.take(i as int) =~= self@.elements);
        }
        r
    }

    /// The labels of the images that `visible_text` shows.
    pub fn image_placeholders_in(&self, visible_text: &str) -> (r: Vec<String>)
        ensures
            text::views(r@) == shown_labels(self@.elements, visible_text@),
    {
        let mut r: Vec<String> = Vec::new();
        let mut i: usize = 0;
        proof {
            assert(self@.elements.take(0) =~= Seq::<ElementView>::empty());
            assert(text::views(r@) =~= shown_labels(self@.elements.take(0), visible_text@));
        }
        while i < self.elements.len()
            invariant
                i <= self.elements@.len(),
                text::views(r@) == shown_labels(self@.elements.take(i as int), visible_text@),
            decreases self.elements@.len() - i,
        {
            let ghost before = r@;
            proof {
                let t = self@.elements.take(i + 1);
                assert(t.drop_last() =~= self@.elements.take(i as int));
                assert(t.last() == self.elements@[i as int]@);
            }
            if payload_is_image(&self.elements[i].payload) && text::contains(
                visible_text,
                self.elements[i].placeholder.as_str(),
            ) {
                r.push(self.elements[i].placeholder.clone());
                proof {
                    assert(text::views(r@) =~= text::views(before).push(
                        self.elements@[i as int]@.placeholder,
                    ));
                }
            }
            i += 1;
        }
        proof {
            assert(self@.elements.take(i as int) =~= self@.elements);
        }
        r
    }

    /// The placeholder that begins at `p`.
    fn element_at(&self, p: usize) -> (r: Option<usize>)
        ensures
            r is Some <==> starting_at(self@.elements, p as int) is Some,
            r matches Some(k) ==> k < self.elements@.len() && starting_at(self@.elements, p as int)
                == Some(self.elements@[k as int]@) && self.elements@[k as int]@.start == p,
    {
        let mut i: usize = self.elements.len();
        proof {
            assert(self@.elements.take(i as int) =~= self@.elements);
        }
        while i > 0
            invariant
                i <= self.elements@.len(),
                starting_at(self@.elements, p as int) == starting_at(
                    self@.elements.take(i as int),
                    p as int,
                ),
            decreases i,
        {
            proof {
                let t = self@.elements.take(i as int);
                assert(t.drop_last() =~= self@.elements.take(i - 1));
                assert(t.last() == self.elements@[i - 1]@);
            }
            if self.elements[i - 1].start == p {
                return Some(i - 1);
            }
            i -= 1;
        }
        None
    }

    /// The text with every placeholder replaced by what it stands for.
    pub fn expanded_text(&self) -> (r: String)
        requires
            self@.well_formed(),
        ensures
            r@ == rendered(self@, true),
    {
        self.rendered_text(true)
    }

    /// The text with every placeholder replaced by what it stands for; an image keeps
    /// its label or goes, as `include_images` says.
    pub fn rendered_text(&self, include_images: bool) -> (r: String)
        requires
            self@.well_formed(),
        ensures
            r@ == rendered(self@, include_images),
    {
        let chars = text::chars_of(self.text.as_str());
        let mut r = String::new();
        let mut p: usize = 0;
        while p < chars.len()
            invariant
                p <= chars@.len(),
                chars@ == self@.text,
                self@.well_formed(),
                r@ + rendered_from(self@, p as int, include_images) == rendered(
                    self@,
                    include_images,
                ),
            decreases chars@.len() - p,
        {
            let ghost before = r@;
            match self.element_at(p) {
                Some(k) => {
                    let ghost e = self.elements@[k as int]@;
                    proof {
                        assert(self@.elements[k as int] == e);
                        assert(in_text(self@.text, self@.elements[k as int]));
                    }
                    match &self.elements[k].payload {
                        InputElementPayload::LargePaste { content } => r.append(content.as_str()),
                        InputElementPayload::Image { .. } => {
                            if include_images {
                                r.append(self.elements[k].placeholder.as_str());
                            }
                        },
                    }
                    proof {
                        assert(r@ =~= before + expansion(e, include_images));
                        assert(r@ + rendered_from(self@, e.end, include_images) =~= before + (
                        expansion(e, include_images) + rendered_from(self@, e.end, include_images)));
                    }
                    p = self.elements[k].end;
                },
                None => {
                    r.push(chars[p]);
                    proof {
                        assert(r@ + rendered_from(self@, p + 1, include_images) =~= before + (
                        seq![self@.text[p as int]] + rendered_from(self@, p + 1, include_images)));
                    }
                    p += 1;
                },
            }
        }
        proof {
            assert(r@ + Seq::<char>::empty() =~= r@);
        }
        r
    }

    /// The images in order of insertion, each with its label.
    fn labelled_images(&self) -> (r: Vec<UserImageInput>)
        ensures
            image_views(r@) == images_of(self@.elements),
    {
        let mut r: Vec<UserImageInput> = Vec::new();
        let mut i: usize = 0;
        proof {
            assert(self@.elements.take(0) =~= Seq::<ElementView>::empty());
            assert(image_views(r@) =~= images_of(self@.elements.take(0)));
        }
        while i < self.elements.len()
            invariant
                i <= self.elements@.len(),
                r@.len() <= i,
                image_views(r@) == images_of(self@.elements.take(i as int)),
            decreases self.elements@.len() - i,
        {
            let ghost before = r@;
            proof {
                let t = self@.elements.take(i + 1);
                assert(t.drop_last() =~= self@.elements.take(i as int));
                assert(t.last() == self.elements@[i as int]@);
            }
            match &self.elements[i].payload {
                InputElementPayload::Image { image } => {
                    let label = user_image_label(r.len() + 1);
                    let one = UserImageInput::png(label, image.clone());
                    r.push(one);
                    proof {
                        assert(image_views(r@) =~= image_views(before).push(one@));
                    }
                },
                InputElementPayload::LargePaste { .. } => {},
            }
            i += 1;
        }
        proof {
            assert(self@.elements.take(i as int) =~= self@.elements);
        }
        r
    }

    /// The message that the input holds; none where it is blank.
    pub fn submission(&self) -> (r: Option<TuiSubmission>)
        requires
            self@.well_formed(),
        ensures
            r is Some <==> !text::is_blank(rendered(self@, true)),
            r matches Some(sub) ==> is_submission_of(sub, self@),
    {
        let text = self.rendered_text(true);
        if text::blank(text.as_str()) {
            return None;
        }
        let history_text = self.rendered_text(false);
        let images = self.labelled_images();
        Some(TuiSubmission { text, history_text, images })
    }

    /// Takes the message out of the input, given what the runtime says of it. A blank
    /// input and a message that the runtime refuses stay in place.
    pub fn take_submission(&mut self, validation: Result<(), InputError>) -> (r: Result<
        Option<TuiSubmission>,
        InputError,
    >)
        requires
            old(self)@.well_formed(),
        ensures
            final(self)@.well_formed(),
            text::is_blank(rendered(old(self)@, true)) ==> r == Ok::<_, InputError>(
                None::<TuiSubmission>,
            ) && final(self)@ == old(self)@,
            !text::is_blank(rendered(old(self)@, true)) ==> match validation {
                Ok(_) => {
                    &&& r matches Ok(Some(sub)) && is_submission_of(sub, old(self)@)
                    &&& final(self)@ == empty_input()
                },
                Err(error) => r == Err::<Option<TuiSubmission>, InputError>(error) && final(self)@
                    == old(self)@,
            },
    {
        match self.submission() {
            None => Ok(None),
            Some(submission) => match validation {
                Err(error) => Err(error),
                Ok(_) => {
                    self.clear();
                    Ok(Some(submission))
                },
            },
        }
    }

    /// Takes the text of the message out of the input, where there is one to send.
    pub fn take_trimmed(&mut self, validation: Result<(), InputError>) -> (r: Option<String>)
        requires
            old(self)@.well_formed(),
        ensures
            final(self)@.well_formed(),
            r is Some <==> !text::is_blank(rendered(old(self)@, true)) && validation is Ok,
            r matches Some(t) ==> t@ == rendered(old(self)@, true) && final(self)@
                == empty_input(),
            r is None ==> final(self)@ == old(self)@,
    {
        match self.take_submission(validation) {
            Ok(Some(submission)) => Some(submission.text),
            _ => None,
        }
    }

    pub fn viewport(&self, max_width: usize) -> (r: TextInputViewport)
        requires
            self@.well_formed(),
        ensures
            shows(r, self@, max_width as int, usize::MAX as int),
            r.text@ == shown_text(self@, max_width as int),
            r.cursor_column == shown_column(self@, max_width as int),
    {
        let r = self.viewport_rows(max_width, usize::MAX);
        proof {
            if max_width == 0 {
                assert(r.text@ =~= Seq::empty());
            }
        }
        r
    }

    /// What fits into `max_width` columns and `max_rows` rows, with the cursor in it.
    pub fn viewport_rows(&self, max_width: usize, max_rows: usize) -> (r: TextInputViewport)
        requires
            self@.well_formed(),
        ensures
            shows(r, self@, max_width as int, max_rows as int),
    {
        if max_width == 0 {
            let r = TextInputViewport {
                text: String::new(),
                image_placeholders: Vec::new(),
                cursor_column: 0,
                cursor_row: 0,
                visible_rows: 1,
            };
            proof {
                assert(text::views(r.image_placeholders@) =~= Seq::<Seq<char>>::empty());
            }
            return r;
        }
        let chars = text::chars_of(self.text.as_str());
        if has_newline(&chars) {
            return self.multiline_viewport(max_width, if max_rows > 1 {
                max_rows
            } else {
                1
            });
        }
        proof {
            lemma_no_newline_splits_not(self@.text);
        }
        let (shown, cursor_column) = visible_line_around_cursor(&chars, self.cursor, max_width);
        TextInputViewport {
            image_placeholders: self.image_placeholders_in(shown.as_str()),
            text: shown,
            cursor_column,
            cursor_row: 0,
            visible_rows: 1,
        }
    }

    fn multiline_viewport(&self, max_width: usize, max_rows: usize) -> (r: TextInputViewport)
        requires
            self@.well_formed(),
            max_width > 0,
            max_rows > 0,
            self@.text.contains('\n'),
        ensures
            shows(r, self@, max_width as int, max_rows as int),
    {
        let chars = text::chars_of(self.text.as_str());
        let before = text::split_text(text::text_of(&chars, 0, self.cursor).as_str(), '\n');
        let lines = text::split_text(self.text.as_str(), '\n');
        let ghost split_before = text::split(self@.text.take(self@.cursor), '\n');
        let ghost split_all = text::split(self@.text, '\n');
        proof {
            text::lemma_split_prefix(self@.text, self@.cursor, '\n');
            assert(chars@.subrange(0, self.cursor as int) =~= self@.text.take(self@.cursor));
            assert(text::views(before@).len() == before@.len());
            assert(text::views(lines@).len() == lines@.len());
        }
        let cursor_line_index: usize = before.len() - 1;
        proof {
            assert(before@[cursor_line_index as int]@ == text::views(before@)[cursor_line_index as int]);
            assert(lines@[cursor_line_index as int]@ == text::views(lines@)[cursor_line_index as int]);
        }
        let cursor_offset: usize = text::chars_of(before[cursor_line_index].as_str()).len();
        let cursor_line = text::chars_of(lines[cursor_line_index].as_str());
        let (cursor_line_text, cursor_column) = visible_line_around_cursor(
            &cursor_line,
            cursor_offset,
            max_width,
        );
        let start: usize = cursor_line_index.saturating_add(1).saturating_sub(max_rows);
        let end: usize = if start.saturating_add(max_rows) < lines.len() {
            start.saturating_add(max_rows)
        } else {
            lines.len()
        };
        let ghost goal = visible_lines(self@, max_width as int, max_rows as int);
        let mut shown: Vec<String> = Vec::new();
        let mut i: usize = start;
        proof {
            assert(text::views(shown@) =~= goal.take(0));
        }
        while i < end
            invariant
                start <= i <= end <= lines@.len(),
                text::views(lines@) == split_all,
                cursor_line_index < lines@.len(),
                goal.len() == end - start,
                forall|k: int|
                    0 <= k < goal.len() ==> #[trigger] goal[k] == (if start + k
                        == cursor_line_index {
                        cursor_line_text@
                    } else {
                        line_prefix(split_all[start + k], max_width as int)
                    }),
                text::views(shown@) == goal.take(i - start),
            decreases end - i,
        {
            let ghost before = shown@;
            proof {
                assert(lines@[i as int]@ == text::views(lines@)[i as int]);
            }
            if i == cursor_line_index {
                shown.push(cursor_line_text.clone());
            } else {
                shown.push(visible_line_prefix(lines[i].as_str(), max_width));
            }
            proof {
                assert(goal[i - start] == shown@.last()@);
                assert(text::views(shown@) =~= text::views(before).push(shown@.last()@));
                assert(goal.take(i + 1 - start) =~= goal.take(i - start).push(goal[i - start]));
            }
            i += 1;
        }
        proof {
            assert(goal.take(end - start) =~= goal);
        }
        let newline = "\n";
        proof {
            reveal_strlit("\n");
            assert(newline@ =~= seq!['\n']);
        }
        let text = text::join_texts(&shown, newline);
        TextInputViewport {
            image_placeholders: self.image_placeholders_in(text.as_str()),
            text,
            cursor_column,
            cursor_row: cursor_line_index - start,
            visible_rows: shown.len(),
        }
    }

    /// Applies a key press: motions, deletions and typed characters.
    pub fn handle_key(&mut self, key: KeyEvent)
        requires
            old(self)@.well_formed(),
        ensures
            final(self)@ == after_key(old(self)@, key),
            final(self)@.well_formed(),
    {
        let control = key.modifiers.control;
        match key.code {
            KeyCode::Char(c) => {
                if control {
                    if c == 'a' {
                        self.move_home();
                    } else if c == 'e' {
                        self.move_end();
                    } else if c == 'u' {
                        self.delete_before_cursor();
                    } else if c == 'k' {
                        self.delete_after_cursor();
                    } else if c == 'w' {
                        self.delete_previous_word();
                    }
                } else {
                    self.insert_char(c);
                }
            },
            KeyCode::Backspace => self.backspace(),
            KeyCode::Delete => self.delete(),
            KeyCode::Left => self.move_left(),
            KeyCode::Right => self.move_right(),
            KeyCode::Home => self.move_home(),
            KeyCode::End => self.move_end(),
            _ => {},
        }
    }
}

/// The input after a key press.
pub open spec fn after_key(v: InputView, key: KeyEvent) -> InputView {
    match key.code {
        KeyCode::Char(c) => if !key.modifiers.control {
            edited(v, v.cursor, v.cursor, seq![c])
        } else if c == 'a' {
            moved(v, 0)
        } else if c == 'e' {
            moved(v, v.text.len() as int)
        } else if c == 'u' {
            edited(v, 0, v.cursor, Seq::empty())
        } else if c == 'k' {
            edited(v, v.cursor, v.text.len() as int, Seq::empty())
        } else if c == 'w' && v.cursor > 0 {
            edited(v, last_word_start(v.text.take(v.cursor)) as int, v.cursor, Seq::empty())
        } else {
            v
        },
        KeyCode::Backspace => if v.cursor == 0 {
            v
        } else {
            edited(v, v.cursor - 1, v.cursor, Seq::empty())
        },
        KeyCode::Delete => if v.cursor == v.text.len() {
            v
        } else {
            edited(v, v.cursor, v.cursor + 1, Seq::empty())
        },
        KeyCode::Left => moved(v, left_of(v)),
        KeyCode::Right => moved(v, right_of(v)),
        KeyCode::Home => moved(v, 0),
        KeyCode::End => moved(v, v.text.len() as int),
        _ => v,
    }
}

pub open spec fn borrowed_views(v: Seq<&InputElement>) -> Seq<ElementView> {
    v.map_values(|e: &InputElement| (*e)@)
}

/// The images among some placeholders.
pub open spec fn only_images(els: Seq<ElementView>) -> Seq<ElementView>
    decreases els.len(),
{
    if els.len() == 0 {
        els
    } else if is_image(els.last()) {
        only_images(els.drop_last()).push(els.last())
    } else {
        only_images(els.drop_last())
    }
}

/// The labels of the images that `shown` shows.
pub open spec fn shown_labels(els: Seq<ElementView>, shown: Seq<char>) -> Seq<Seq<char>>
    decreases els.len(),
{
    if els.len() == 0 {
        Seq::empty()
    } else if is_image(els.last()) && text::occurs(shown, els.last().placeholder) {
        shown_labels(els.drop_last(), shown).push(els.last().placeholder)
    } else {
        shown_labels(els.drop_last(), shown)
    }
}

/// As much of a line as fits, from its beginning.
pub open spec fn line_prefix(line: Seq<char>, max_width: int) -> Seq<char> {
    line.take(width::fitting_end(line, 0, max_width))
}

/// As much of the line as fits with the cursor in it: from the beginning where the
/// cursor is that near, else so that the cursor takes the last column.
pub open spec fn line_around(line: Seq<char>, cursor: int, max_width: int) -> (Seq<char>, int) {
    let before = line.take(cursor);
    let column = width::unicode_text_width(before) as int;
    if column < max_width {
        (line_prefix(line, max_width), column)
    } else {
        let start = width::fitting_tail(before, max_width - 1) as int;
        (
            line.subrange(start, width::fitting_end(line, start, max_width)),
            width::fitting_tail_width(before, max_width - 1) as int,
        )
    }
}

/// The line that the cursor is in, counted from the first.
pub open spec fn cursor_line(v: InputView) -> int {
    text::split(v.text.take(v.cursor), '\n').len() - 1
}

/// The cursor's position within its line.
pub open spec fn cursor_offset(v: InputView) -> int {
    text::split(v.text.take(v.cursor), '\n').last().len() as int
}

/// The first line on screen: the cursor's line is the last that has to fit.
pub open spec fn first_row(v: InputView, max_rows: int) -> int {
    if cursor_line(v) + 1 <= max_rows {
        0
    } else {
        cursor_line(v) + 1 - max_rows
    }
}

/// The lines on screen.
pub open spec fn visible_lines(v: InputView, max_width: int, max_rows: int) -> Seq<Seq<char>> {
    let lines = text::split(v.text, '\n');
    let first = first_row(v, max_rows);
    let last = if first + max_rows < lines.len() {
        first + max_rows
    } else {
        lines.len() as int
    };
    Seq::new(
        (last - first) as nat,
        |k: int|
            if first + k == cursor_line(v) {
                line_around(lines[first + k], cursor_offset(v), max_width).0
            } else {
                line_prefix(lines[first + k], max_width)
            },
    )
}

/// What a viewport of some width shows of an input.
pub open spec fn shown_text(v: InputView, max_width: int) -> Seq<char> {
    if max_width == 0 {
        Seq::empty()
    } else {
        text::join(visible_lines(v, max_width, usize::MAX as int), seq!['\n'])
    }
}

/// The cursor's column in a viewport of some width.
pub open spec fn shown_column(v: InputView, max_width: int) -> int {
    if max_width == 0 {
        0
    } else {
        line_around(
            text::split(v.text, '\n')[cursor_line(v)],
            cursor_offset(v),
            max_width,
        ).1
    }
}

/// What a viewport of some width and height shows of an input.
pub open spec fn shows(r: TextInputViewport, v: InputView, max_width: int, max_rows: int) -> bool {
    let rows = if max_rows > 1 {
        max_rows
    } else {
        1
    };
    if max_width == 0 {
        &&& r.text@.len() == 0
        &&& r.image_placeholders@.len() == 0
        &&& r.cursor_column == 0
        &&& r.cursor_row == 0
        &&& r.visible_rows == 1
    } else {
        &&& r.text@ == text::join(visible_lines(v, max_width, rows), seq!['\n'])
        &&& text::views(r.image_placeholders@) == shown_labels(v.elements, r.text@)
        &&& r.cursor_column == line_around(
            text::split(v.text, '\n')[cursor_line(v)],
            cursor_offset(v),
            max_width,
        ).1
        &&& r.cursor_row == cursor_line(v) - first_row(v, rows)
        &&& r.visible_rows == visible_lines(v, max_width, rows).len()
    }
}

/// A text without a line break is its only line.
proof fn lemma_one_line(s: Seq<char>)
    requires
        !s.contains('\n'),
    ensures
        text::split(s, '\n') == seq![s],
    decreases s.len(),
{
    if s.len() > 0 {
        assert(!s.drop_last().contains('\n')) by {
            assert forall|i: int| 0 <= i < s.drop_last().len() implies s.drop_last()[i] != '\n' by {
                assert(s.drop_last()[i] == s[i]);
                assert(s.contains(s[i]));
            }
        }
        lemma_one_line(s.drop_last());
        assert(s.contains(s.last()));
        let init = text::split(s.drop_last(), '\n');
        assert(init.drop_last() =~= Seq::<Seq<char>>::empty());
        assert(init.last().push(s.last()) =~= s);
        assert(text::split(s, '\n') =~= seq![s]);
    } else {
        assert(s =~= Seq::<char>::empty());
        assert(text::split(s, '\n') =~= seq![s]);
    }
}

proof fn lemma_no_newline_splits_not(s: Seq<char>)
    requires
        !s.contains('\n'),
    ensures
        text::split(s, '\n') == seq![s],
        forall|p: int| 0 <= p <= s.len() ==> text::split(#[trigger] s.take(p), '\n') == seq![s.take(p)],
        forall|line: Seq<char>| text::join(#[trigger] seq![line], seq!['\n']) == line,
{
    lemma_one_line(s);
    assert forall|p: int| 0 <= p <= s.len() implies text::split(#[trigger] s.take(p), '\n')
        == seq![s.take(p)] by {
        assert forall|i: int| 0 <= i < s.take(p).len() implies s.take(p)[i] != '\n' by {
            assert(s.take(p)[i] == s[i]);
            assert(s.contains(s[i]));
        }
        lemma_one_line(s.take(p));
    }
}

fn has_newline(v: &Vec<char>) -> (r: bool)
    ensures
        r == v@.contains('\n'),
{
    let mut i: usize = 0;
    while i < v.len()
        invariant
            i <= v@.len(),
            forall|k: int| 0 <= k < i ==> v@[k] != '\n',
        decreases v@.len() - i,
    {
        if v[i] == '\n' {
            assert(v@[i as int] == '\n');
            return true;
        }
        i += 1;
    }
    false
}

/// As much of a line as fits, from its beginning.
pub fn visible_line_prefix(line: &str, max_width: usize) -> (r: String)
    ensures
        r@ == line_prefix(line@, max_width as int),
{
    let chars = text::chars_of(line);
    let end: usize = width::visible_text_end(&chars, 0, max_width);
    proof {
        assert(chars@.subrange(0, end as int) =~= chars@.take(end as int));
    }
    text::text_of(&chars, 0, end)
}

/// As much of a line as fits with the cursor in it, and the cursor's column.
fn visible_line_around_cursor(line: &Vec<char>, cursor: usize, max_width: usize) -> (r: (
    String,
    usize,
))
    requires
        cursor <= line@.len(),
        max_width > 0,
    ensures
        r.0@ == line_around(line@, cursor as int, max_width as int).0,
        r.1 == line_around(line@, cursor as int, max_width as int).1,
{
    proof {
        assert(line@.subrange(0, cursor as int) =~= line@.take(cursor as int));
    }
    let cursor_column: usize = width::text_width(text::text_of(line, 0, cursor).as_str());
    if cursor_column < max_width {
        return (
            visible_line_prefix(text::whole_text(line).as_str(), max_width),
            cursor_column,
        );
    }
    let (start, visible_cursor_column) = width::viewport_start_before_text_cursor(line, cursor, max_width - 1);
    let end: usize = width::visible_text_end(line, start, max_width);
    (text::text_of(line, start, end), visible_cursor_column)
}

/// The input with the cursor at `p`.
pub open spec fn moved(v: InputView, p: int) -> InputView {
    InputView { cursor: p, ..v }
}

/// The input with a placeholder put in at the cursor, and the cursor behind it.
pub open spec fn with_element(
    v: InputView,
    placeholder: Seq<char>,
    payload: PayloadView,
) -> InputView {
    let after = edited(v, v.cursor, v.cursor, placeholder);
    InputView {
        elements: after.elements.push(
            ElementView {
                start: v.cursor,
                end: v.cursor + placeholder.len(),
                placeholder,
                payload,
            },
        ),
        ..after
    }
}

/// Text inserted at the cursor touches no placeholder.
proof fn lemma_insert(v: InputView, value: Seq<char>)
    requires
        v.well_formed(),
    ensures
        ({
            let r = edited(v, v.cursor, v.cursor, value);
            &&& r.text == v.text.take(v.cursor) + value + v.text.skip(v.cursor)
            &&& r.cursor == v.cursor + value.len()
            &&& r.elements == kept(v.elements, v.cursor, v.cursor, value.len() as int)
            &&& image_count(r.elements) == image_count(v.elements)
        }),
{
    lemma_snap_down(v.text, v.elements, v.cursor);
    lemma_snap_up(v.text, v.elements, v.cursor);
    let a = snap_down(v.elements, v.cursor);
    let b = snap_up(v.elements, v.cursor);
    assert(a == v.cursor);
    assert(b == v.cursor);
    assert(!drops_image(v.elements, a, b)) by {
        if drops_image(v.elements, a, b) {
            let i = choose|i: int|
                0 <= i < v.elements.len() && is_image(#[trigger] v.elements[i]) && overlaps(
                    a,
                    b,
                    v.elements[i],
                );
            assert(inside(v.elements[i], v.cursor));
        }
    }
    lemma_kept_images(v.elements, a, b, value.len() as int);
}

proof fn lemma_with_element(v: InputView, placeholder: Seq<char>, payload: PayloadView)
    requires
        v.well_formed(),
        placeholder.len() > 0,
        payload is Image ==> placeholder == image_label(image_count(v.elements) + 1)
            && image_count(v.elements) < MAX_USER_IMAGES,
    ensures
        with_element(v, placeholder, payload).well_formed(),
        edited(v, v.cursor, v.cursor, placeholder).cursor == v.cursor + placeholder.len(),
{
    let c = v.cursor;
    let n = placeholder.len() as int;
    lemma_insert(v, placeholder);
    edits_keep_inputs_well_formed(v, c, c, placeholder);
    lemma_snap_down(v.text, v.elements, c);
    lemma_snap_up(v.text, v.elements, c);
    lemma_kept(v.text, v.elements, c, c, placeholder);
    let after = edited(v, c, c, placeholder);
    let r = with_element(v, placeholder, payload);
    let e = r.elements.last();
    assert(after.text.subrange(c, c + n) =~= placeholder);
    assert(r.elements.drop_last() =~= after.elements);
    assert forall|i: int| 0 <= i < r.elements.len() implies in_text(r.text, #[trigger] r.elements[i]) by {
        if i < after.elements.len() {
            assert(r.elements[i] == after.elements[i]);
        }
    }
    assert forall|i: int, j: int| 0 <= i < j < r.elements.len() implies apart(
        #[trigger] r.elements[i],
        #[trigger] r.elements[j],
    ) by {
        assert(r.elements[i] == after.elements[i]);
        if j < after.elements.len() {
            assert(r.elements[j] == after.elements[j]);
        } else {
            let m = choose|m: int|
                0 <= m < v.elements.len() && (v.elements[m].end <= c || c <= v.elements[m].start)
                    && (#[trigger] kept(v.elements, c, c, n)[i]) == shifted(
                    #[trigger] v.elements[m],
                    c,
                    c,
                    n,
                );
            assert(in_text(v.text, v.elements[m]));
        }
    }
    assert forall|i: int| 0 <= i < r.elements.len() implies !inside(
        #[trigger] r.elements[i],
        r.cursor,
    ) by {
        if i < after.elements.len() {
            assert(r.elements[i] == after.elements[i]);
        }
    }
}

proof fn lemma_decimal_nonempty(n: nat)
    ensures
        text::decimal(n).len() > 0,
{
}

/// Where the cursor goes on a step to the left.
pub open spec fn left_of(v: InputView) -> int {
    if v.cursor == 0 {
        0
    } else if exists|k: int|
        0 <= k < v.elements.len() && (#[trigger] v.elements[k]).start < v.cursor
            <= v.elements[k].end {
        v.elements[choose|k: int|
            0 <= k < v.elements.len() && (#[trigger] v.elements[k]).start < v.cursor
                <= v.elements[k].end].start
    } else {
        v.cursor - 1
    }
}

/// Where the cursor goes on a step to the right.
pub open spec fn right_of(v: InputView) -> int {
    if v.cursor == v.text.len() {
        v.cursor
    } else if exists|k: int|
        0 <= k < v.elements.len() && (#[trigger] v.elements[k]).start <= v.cursor
            < v.elements[k].end {
        v.elements[choose|k: int|
            0 <= k < v.elements.len() && (#[trigger] v.elements[k]).start <= v.cursor
                < v.elements[k].end].end
    } else {
        v.cursor + 1
    }
}

proof fn lemma_left_of(v: InputView)
    requires
        v.well_formed(),
    ensures
        moved(v, left_of(v)).well_formed(),
        v.cursor > 0 ==> left_of(v) < v.cursor,
        forall|k: int|
            0 <= k < v.elements.len() && (#[trigger] v.elements[k]).start < v.cursor
                <= v.elements[k].end ==> left_of(v) == v.elements[k].start,
{
    let p = left_of(v);
    assert forall|i: int| 0 <= i < v.elements.len() implies !inside(#[trigger] v.elements[i], p) by {
        assert(in_text(v.text, v.elements[i]));
        assert(!inside(v.elements[i], v.cursor));
    }
    assert forall|i: int| 0 <= i < moved(v, p).elements.len() implies !inside(
        #[trigger] moved(v, p).elements[i],
        p,
    ) by {
        assert(!inside(v.elements[i], p));
    }
}

proof fn lemma_right_of(v: InputView)
    requires
        v.well_formed(),
    ensures
        moved(v, right_of(v)).well_formed(),
        v.cursor < v.text.len() ==> right_of(v) > v.cursor,
        forall|k: int|
            0 <= k < v.elements.len() && (#[trigger] v.elements[k]).start <= v.cursor
                < v.elements[k].end ==> right_of(v) == v.elements[k].end || v.cursor
                == v.text.len(),
{
    let p = right_of(v);
    assert forall|i: int| 0 <= i < v.elements.len() implies !inside(#[trigger] v.elements[i], p) by {
        assert(in_text(v.text, v.elements[i]));
        assert(!inside(v.elements[i], v.cursor));
    }
    assert forall|i: int| 0 <= i < moved(v, p).elements.len() implies !inside(
        #[trigger] moved(v, p).elements[i],
        p,
    ) by {
        assert(!inside(v.elements[i], p));
    }
}

proof fn lemma_ends_in_place(v: InputView)
    requires
        v.well_formed(),
    ensures
        moved(v, 0).well_formed(),
        moved(v, v.text.len() as int).well_formed(),
{
    assert forall|i: int| 0 <= i < v.elements.len() implies !inside(#[trigger] v.elements[i], 0)
        && !inside(v.elements[i], v.text.len() as int) by {
        assert(in_text(v.text, v.elements[i]));
    }
}

/// Where the last word among the first `to` characters begins.
fn word_start(chars: &Vec<char>, to: usize) -> (r: usize)
    requires
        to <= chars@.len(),
    ensures
        r == last_word_start(chars@.take(to as int)),
        r <= to,
{
    let ghost s = chars@.take(to as int);
    let mut end: usize = to;
    proof {
        assert(s.take(to as int) =~= s);
    }
    while end > 0 && text::is_whitespace(chars[end - 1])
        invariant
            end <= to <= chars@.len(),
            s == chars@.take(to as int),
            text::trim_end(s) == text::trim_end(s.take(end as int)),
        decreases end,
    {
        proof {
            assert(s.take(end as int).drop_last() =~= s.take(end - 1));
        }
        end -= 1;
    }
    proof {
        assert(text::trim_end(s) == s.take(end as int));
    }
    let mut start: usize = end;
    while start > 0 && !text::is_whitespace(chars[start - 1])
        invariant
            start <= end <= to <= chars@.len(),
            s == chars@.take(to as int),
            without_last_word(text::trim_end(s)) == without_last_word(s.take(start as int)),
        decreases start,
    {
        proof {
            assert(s.take(start as int).drop_last() =~= s.take(start - 1));
        }
        start -= 1;
    }
    start
}

/// The Left key steps over one character, or over the whole placeholder that ends at the
/// cursor; it changes nothing but the cursor.
pub proof fn left_steps_back_over_one_piece(v: InputView, key: KeyEvent)
    requires
        v.well_formed(),
        key.code == KeyCode::Left,
    ensures
        after_key(v, key).text == v.text,
        after_key(v, key).elements == v.elements,
        v.cursor == 0 ==> after_key(v, key).cursor == 0,
        v.cursor > 0 ==> 0 <= after_key(v, key).cursor < v.cursor,
        forall|k: int|
            0 <= k < v.elements.len() && (#[trigger] v.elements[k]).end == v.cursor ==> after_key(
                v,
                key,
            ).cursor == v.elements[k].start,
        v.cursor > 0 && (forall|k: int|
            0 <= k < v.elements.len() ==> (#[trigger] v.elements[k]).end != v.cursor) ==> after_key(
            v,
            key,
        ).cursor == v.cursor - 1,
{
    lemma_left_of(v);
    assert forall|k: int| 0 <= k < v.elements.len() implies in_text(v.text, #[trigger] v.elements[k])
        && !inside(v.elements[k], v.cursor) by {}
    if v.cursor > 0 && (exists|k: int|
        0 <= k < v.elements.len() && (#[trigger] v.elements[k]).start < v.cursor
            <= v.elements[k].end) {
        let k = choose|k: int|
            0 <= k < v.elements.len() && (#[trigger] v.elements[k]).start < v.cursor
                <= v.elements[k].end;
        assert(v.elements[k].end == v.cursor);
    }
}

/// The Right key steps over one character, or over the whole placeholder that begins at the
/// cursor; it changes nothing but the cursor.
pub proof fn right_steps_on_over_one_piece(v: InputView, key: KeyEvent)
    requires
        v.well_formed(),
        key.code == KeyCode::Right,
    ensures
        after_key(v, key).text == v.text,
        after_key(v, key).elements == v.elements,
        v.cursor == v.text.len() ==> after_key(v, key).cursor == v.cursor,
        v.cursor < v.text.len() ==> v.cursor < after_key(v, key).cursor <= v.text.len(),
        forall|k: int|
            0 <= k < v.elements.len() && (#[trigger] v.elements[k]).start == v.cursor ==> after_key(
                v,
                key,
            ).cursor == v.elements[k].end,
        v.cursor < v.text.len() && (forall|k: int|
            0 <= k < v.elements.len() ==> (#[trigger] v.elements[k]).start != v.cursor)
            ==> after_key(v, key).cursor == v.cursor + 1,
{
    lemma_right_of(v);
    assert forall|k: int| 0 <= k < v.elements.len() implies in_text(v.text, #[trigger] v.elements[k])
        && !inside(v.elements[k], v.cursor) by {}
    if v.cursor < v.text.len() && (exists|k: int|
        0 <= k < v.elements.len() && (#[trigger] v.elements[k]).start <= v.cursor
            < v.elements[k].end) {
        let k = choose|k: int|
            0 <= k < v.elements.len() && (#[trigger] v.elements[k]).start <= v.cursor
                < v.elements[k].end;
        assert(v.elements[k].start == v.cursor);
        assert forall|j: int|
            0 <= j < v.elements.len() && (#[trigger] v.elements[j]).start == v.cursor implies j == k by {
            if j < k {
                assert(apart(v.elements[j], v.elements[k]));
            } else if k < j {
                assert(apart(v.elements[k], v.elements[j]));
            }
        }
    }
}

/// The Left key undoes the Right key, and the Right key undoes the Left key.
pub proof fn left_and_right_undo_each_other(v: InputView, left: KeyEvent, right: KeyEvent)
    requires
        v.well_formed(),
        left.code == KeyCode::Left,
        right.code == KeyCode::Right,
    ensures
        v.cursor < v.text.len() ==> after_key(after_key(v, right), left) == v,
        v.cursor > 0 ==> after_key(after_key(v, left), right) == v,
{
    lemma_left_of(v);
    lemma_right_of(v);
    left_steps_back_over_one_piece(v, left);
    right_steps_on_over_one_piece(v, right);
    let l = after_key(v, left);
    let r = after_key(v, right);
    left_steps_back_over_one_piece(r, left);
    right_steps_on_over_one_piece(l, right);
    assert forall|k: int| 0 <= k < v.elements.len() implies in_text(v.text, #[trigger] v.elements[k])
        && !inside(v.elements[k], v.cursor) && !inside(v.elements[k], l.cursor) && !inside(
        v.elements[k],
        r.cursor,
    ) by {
        assert(l.elements[k] == v.elements[k]);
        assert(r.elements[k] == v.elements[k]);
    }
    if v.cursor > 0 {
        if exists|k: int| 0 <= k < v.elements.len() && (#[trigger] v.elements[k]).end == v.cursor {
            let k = choose|k: int|
                0 <= k < v.elements.len() && (#[trigger] v.elements[k]).end == v.cursor;
            assert(l.elements[k].start == l.cursor);
        } else {
            assert forall|k: int| 0 <= k < l.elements.len() implies (
            #[trigger] l.elements[k]).start != l.cursor by {
                assert(v.elements[k].end != v.cursor);
            }
        }
    }
    if v.cursor < v.text.len() {
        if exists|k: int| 0 <= k < v.elements.len() && (#[trigger] v.elements[k]).start == v.cursor {
            let k = choose|k: int|
                0 <= k < v.elements.len() && (#[trigger] v.elements[k]).start == v.cursor;
            assert(r.elements[k].end == r.cursor);
        } else {
            assert forall|k: int| 0 <= k < r.elements.len() implies (
            #[trigger] r.elements[k]).end != r.cursor by {
                assert(v.elements[k].start != v.cursor);
            }
        }
    }
}

/// Home and Control-A lead to the beginning of the text, End and Control-E to its end; they
/// change nothing but the cursor.
pub proof fn home_and_end_lead_to_the_borders(v: InputView, key: KeyEvent)
    ensures
        key.code == KeyCode::Home || (key.code == KeyCode::Char('a') && key.modifiers.control)
            ==> after_key(v, key) == (InputView { text: v.text, cursor: 0, elements: v.elements }),
        key.code == KeyCode::End || (key.code == KeyCode::Char('e') && key.modifiers.control)
            ==> after_key(v, key) == (InputView {
            text: v.text,
            cursor: v.text.len() as int,
            elements: v.elements,
        }),
{
}

/// Keys that neither move nor edit leave the input as it is.
pub proof fn other_keys_change_nothing(v: InputView, key: KeyEvent, c: char)
    requires
        (key.code == KeyCode::Char(c) && key.modifiers.control && c != 'a' && c != 'e' && c != 'u'
            && c != 'k' && c != 'w') || !(key.code is Char || key.code == KeyCode::Backspace
            || key.code == KeyCode::Delete || key.code == KeyCode::Left || key.code
            == KeyCode::Right || key.code == KeyCode::Home || key.code == KeyCode::End),
    ensures
        after_key(v, key) == v,
{
}

/// Where nothing overlaps an edit, every placeholder stays and moves with its text.
proof fn lemma_kept_all(els: Seq<ElementView>, a: int, b: int, n: int)
    requires
        forall|i: int| 0 <= i < els.len() ==> !overlaps(a, b, #[trigger] els[i]),
    ensures
        kept(els, a, b, n).len() == els.len(),
        forall|i: int|
            0 <= i < els.len() ==> (#[trigger] kept(els, a, b, n)[i]) == shifted(els[i], a, b, n),
    decreases els.len(),
{
    if els.len() > 0 {
        let init = els.drop_last();
        assert forall|i: int| 0 <= i < init.len() implies !overlaps(a, b, #[trigger] init[i]) by {
            assert(init[i] == els[i]);
        }
        lemma_kept_all(init, a, b, n);
        assert(!overlaps(a, b, els[els.len() - 1]));
        assert forall|i: int| 0 <= i < els.len() implies (#[trigger] kept(els, a, b, n)[i])
            == shifted(els[i], a, b, n) by {
            if i < init.len() {
                assert(kept(init, a, b, n)[i] == shifted(init[i], a, b, n));
            }
        }
    }
}

/// Where one placeholder overlaps an edit, the others stay and move with their text.
proof fn lemma_kept_but_one(els: Seq<ElementView>, a: int, b: int, n: int, k: int)
    requires
        0 <= k < els.len(),
        overlaps(a, b, els[k]),
        forall|i: int| 0 <= i < els.len() && i != k ==> !overlaps(a, b, #[trigger] els[i]),
    ensures
        kept(els, a, b, n).len() == els.len() - 1,
        forall|i: int|
            0 <= i < els.len() - 1 ==> (#[trigger] kept(els, a, b, n)[i]) == shifted(
                els[if i < k {
                    i
                } else {
                    i + 1
                }],
                a,
                b,
                n,
            ),
    decreases els.len(),
{
    let init = els.drop_last();
    assert forall|i: int| 0 <= i < init.len() implies #[trigger] init[i] == els[i] by {}
    if k == els.len() - 1 {
        assert forall|i: int| 0 <= i < init.len() implies !overlaps(a, b, #[trigger] init[i]) by {
            assert(init[i] == els[i]);
        }
        lemma_kept_all(init, a, b, n);
    } else {
        assert forall|i: int| 0 <= i < init.len() && i != k implies !overlaps(
            a,
            b,
            #[trigger] init[i],
        ) by {
            assert(init[i] == els[i]);
        }
        assert(init[k] == els[k]);
        lemma_kept_but_one(init, a, b, n, k);
        assert(!overlaps(a, b, els[els.len() - 1]));
        assert forall|i: int| 0 <= i < els.len() - 1 implies (#[trigger] kept(els, a, b, n)[i])
            == shifted(
            els[if i < k {
                i
            } else {
                i + 1
            }],
            a,
            b,
            n,
        ) by {
            if i < init.len() - 1 {
                assert(kept(init, a, b, n)[i] == shifted(
                    init[if i < k {
                        i
                    } else {
                        i + 1
                    }],
                    a,
                    b,
                    n,
                ));
            }
        }
    }
}

/// A typed character stands in the text where the cursor was, and the cursor behind it; the
/// rest of the text and every placeholder stay, those behind the cursor one place further on.
pub proof fn typed_characters_go_in_at_the_cursor(v: InputView, key: KeyEvent, c: char)
    requires
        v.well_formed(),
        key.code == KeyCode::Char(c),
        !key.modifiers.control,
    ensures
        ({
            let r = after_key(v, key);
            &&& r.text == v.text.take(v.cursor).push(c) + v.text.skip(v.cursor)
            &&& r.cursor == v.cursor + 1
            &&& r.elements.len() == v.elements.len()
            &&& forall|i: int|
                0 <= i < v.elements.len() ==> (#[trigger] r.elements[i]).placeholder
                    == v.elements[i].placeholder && r.elements[i].payload == v.elements[i].payload
                    && (if v.elements[i].start >= v.cursor {
                    r.elements[i].start == v.elements[i].start + 1 && r.elements[i].end
                        == v.elements[i].end + 1
                } else {
                    r.elements[i].start == v.elements[i].start && r.elements[i].end
                        == v.elements[i].end
                })
        }),
{
    lemma_insert(v, seq![c]);
    assert forall|i: int| 0 <= i < v.elements.len() implies !overlaps(
        v.cursor,
        v.cursor,
        #[trigger] v.elements[i],
    ) by {
        assert(!inside(v.elements[i], v.cursor));
    }
    lemma_kept_all(v.elements, v.cursor, v.cursor, 1);
    let r = after_key(v, key);
    assert(r.text =~= v.text.take(v.cursor).push(c) + v.text.skip(v.cursor));
    assert forall|i: int| 0 <= i < v.elements.len() implies (#[trigger] r.elements[i]) == shifted(
        v.elements[i],
        v.cursor,
        v.cursor,
        1,
    ) by {
        assert(kept(v.elements, v.cursor, v.cursor, 1)[i] == r.elements[i]);
    }
}

/// What an edit leaves and where. Borders inside a placeholder move out to its edges; the text
/// between them gives way to the new one, and the cursor stands behind it. The first of the
/// results is where the edit begins in the end, the second where it ended.
proof fn lemma_edit(v: InputView, from: int, to: int, value: Seq<char>) -> (r: (int, int))
    requires
        v.well_formed(),
        0 <= from <= to <= v.text.len(),
    ensures
        0 <= r.0 <= from,
        to <= r.1 <= v.text.len(),
        forall|k: int|
            0 <= k < v.elements.len() && inside(#[trigger] v.elements[k], from) ==> r.0
                == v.elements[k].start,
        (forall|k: int| 0 <= k < v.elements.len() ==> !inside(#[trigger] v.elements[k], from))
            ==> r.0 == from,
        forall|k: int|
            0 <= k < v.elements.len() && inside(#[trigger] v.elements[k], to) ==> r.1
                == v.elements[k].end,
        (forall|k: int| 0 <= k < v.elements.len() ==> !inside(#[trigger] v.elements[k], to))
            ==> r.1 == to,
        forall|k: int|
            0 <= k < v.elements.len() ==> !inside(#[trigger] v.elements[k], r.0) && !inside(
                v.elements[k],
                r.1,
            ),
        edited(v, from, to, value) == ({
            let plain = InputView {
                text: v.text.take(r.0) + value + v.text.skip(r.1),
                cursor: r.0 + value.len(),
                elements: kept(v.elements, r.0, r.1, value.len() as int),
            };
            if drops_image(v.elements, r.0, r.1) {
                renumbered(plain, 0, 0)
            } else {
                plain
            }
        }),
{
    lemma_snap_down(v.text, v.elements, from);
    lemma_snap_up(v.text, v.elements, to);
    (snap_down(v.elements, from), snap_up(v.elements, to))
}

/// Renumbering keeps what the placeholders stand for.
proof fn lemma_renumbered_payloads(v: InputView, k: int, seen: nat)
    requires
        k >= 0,
    ensures
        renumbered(v, k, seen).elements.len() == v.elements.len(),
        forall|i: int|
            0 <= i < v.elements.len() ==> (#[trigger] renumbered(v, k, seen).elements[i]).payload
                == v.elements[i].payload,
    decreases v.elements.len() - k,
{
    if k < v.elements.len() {
        if is_image(v.elements[k]) {
            let w = relabel(v, k, image_label(seen + 1));
            lemma_renumbered_payloads(w, k + 1, seen + 1);
            assert forall|i: int| 0 <= i < v.elements.len() implies (
            #[trigger] renumbered(v, k, seen).elements[i]).payload == v.elements[i].payload by {
                assert(renumbered(w, k + 1, seen + 1).elements[i].payload == w.elements[i].payload);
            }
        } else {
            lemma_renumbered_payloads(v, k + 1, seen);
        }
    }
}

/// Renumbering leaves an input as it is whose images carry the right labels.
proof fn lemma_renumbered_again(v: InputView, k: int, seen: nat)
    requires
        placed(v.text, v.elements),
        0 <= k <= v.elements.len(),
        labelled(v.elements),
        seen == image_count(v.elements.take(k)),
    ensures
        renumbered(v, k, seen) == v,
    decreases v.elements.len() - k,
{
    if k < v.elements.len() {
        let next = v.elements.take(k + 1);
        assert(next.drop_last() =~= v.elements.take(k));
        assert(next.last() == v.elements[k]);
        lemma_labelled_prefix(v.elements, k + 1);
        assert(in_text(v.text, v.elements[k]));
        if is_image(v.elements[k]) {
            let label = image_label(seen + 1);
            assert(v.elements[k].placeholder == label);
            let w = relabel(v, k, label);
            assert(w.text =~= v.text);
            assert(w.elements =~= v.elements) by {
                assert forall|i: int| 0 <= i < v.elements.len() implies #[trigger] w.elements[i]
                    == v.elements[i] by {}
            }
            assert(w == v);
            lemma_renumbered_again(v, k + 1, seen + 1);
        } else {
            lemma_renumbered_again(v, k + 1, seen);
        }
    }
}

proof fn lemma_labelled_prefix(els: Seq<ElementView>, n: int)
    requires
        labelled(els),
        0 <= n <= els.len(),
    ensures
        labelled(els.take(n)),
    decreases els.len(),
{
    if n == els.len() {
        assert(els.take(n) =~= els);
    } else {
        assert(els.drop_last().take(n) =~= els.take(n));
        lemma_labelled_prefix(els.drop_last(), n);
    }
}

/// Backspace right behind a typed character takes it back and leaves the input as it was.
pub proof fn backspace_takes_a_typed_character_back(
    v: InputView,
    typed: KeyEvent,
    c: char,
    back: KeyEvent,
)
    requires
        v.well_formed(),
        typed.code == KeyCode::Char(c),
        !typed.modifiers.control,
        back.code == KeyCode::Backspace,
    ensures
        after_key(after_key(v, typed), back) == v,
{
    typed_characters_go_in_at_the_cursor(v, typed, c);
    edits_keep_inputs_well_formed(v, v.cursor, v.cursor, seq![c]);
    let w = after_key(v, typed);
    let (a, b) = lemma_edit(w, w.cursor - 1, w.cursor, Seq::empty());
    assert forall|i: int| 0 <= i < w.elements.len() implies !inside(
        #[trigger] w.elements[i],
        w.cursor - 1,
    ) && !inside(w.elements[i], w.cursor) && !overlaps(w.cursor - 1, w.cursor, w.elements[i]) by {
        assert(in_text(v.text, v.elements[i]));
        assert(!inside(v.elements[i], v.cursor));
    }
    lemma_kept_all(w.elements, a, b, 0);
    let r = after_key(w, back);
    assert(r.text =~= v.text);
    assert(r.elements =~= v.elements) by {
        assert forall|i: int| 0 <= i < v.elements.len() implies #[trigger] r.elements[i]
            == v.elements[i] by {
            assert(kept(w.elements, a, b, 0)[i] == shifted(w.elements[i], a, b, 0));
        }
    }
}

/// The placeholders but for one.
pub open spec fn all_but(els: Seq<ElementView>, k: int) -> Seq<ElementView> {
    els.take(k) + els.skip(k + 1)
}

/// What one of the two erasing keys leaves, `p..q` being the piece that it erases: the text
/// outside of it, with the cursor where the piece was. A placeholder goes as a whole and no
/// other does; the texts of the others change only where an image went before them.
pub open spec fn erases(v: InputView, r: InputView, p: int, q: int) -> bool {
    &&& r.cursor == p || (exists|k: int|
        0 <= k < v.elements.len() && is_image(#[trigger] v.elements[k]) && v.elements[k].start == p)
    &&& (forall|k: int|
        0 <= k < v.elements.len() && (#[trigger] v.elements[k]).start == p ==> !is_image(
            v.elements[k],
        )) ==> r.text == v.text.take(p) + v.text.skip(q)
    &&& (forall|k: int| 0 <= k < v.elements.len() ==> (#[trigger] v.elements[k]).start != p)
        ==> r.elements.len() == v.elements.len() && (forall|i: int|
        0 <= i < v.elements.len() ==> (#[trigger] r.elements[i]).payload == v.elements[i].payload)
    &&& forall|k: int|
        0 <= k < v.elements.len() && (#[trigger] v.elements[k]).start == p ==> r.elements.len()
            == v.elements.len() - 1 && (forall|i: int|
            0 <= i < r.elements.len() ==> (#[trigger] r.elements[i]).payload == all_but(
                v.elements,
                k,
            )[i].payload)
}

/// Erasing one character or one placeholder leaves the rest.
proof fn lemma_erases(v: InputView, from: int, to: int, p: int, q: int)
    requires
        v.well_formed(),
        0 <= p <= from < to <= q <= v.text.len(),
        to == from + 1,
        (p == from && q == to && (forall|k: int|
            0 <= k < v.elements.len() ==> !overlaps(p, q, #[trigger] v.elements[k]))) || (exists|
            k: int,
        |
            0 <= k < v.elements.len() && (#[trigger] v.elements[k]).start == p && v.elements[k].end
                == q),
    ensures
        erases(v, edited(v, from, to, Seq::empty()), p, q),
{
    let r = edited(v, from, to, Seq::empty());
    let (a, b) = lemma_edit(v, from, to, Seq::empty());
    assert forall|k: int| 0 <= k < v.elements.len() implies in_text(
        v.text,
        #[trigger] v.elements[k],
    ) by {}
    if p == from && q == to && (forall|k: int|
        0 <= k < v.elements.len() ==> !overlaps(p, q, #[trigger] v.elements[k])) {
        assert forall|k: int| 0 <= k < v.elements.len() implies !inside(
            #[trigger] v.elements[k],
            from,
        ) && !inside(v.elements[k], to) && v.elements[k].start != p by {
            assert(!overlaps(p, q, v.elements[k]));
        }
        assert(a == p && b == q);
        lemma_kept_all(v.elements, a, b, 0);
        assert(!drops_image(v.elements, a, b));
        assert(r.text =~= v.text.take(p) + v.text.skip(q));
        assert forall|i: int| 0 <= i < v.elements.len() implies (
        #[trigger] r.elements[i]).payload == v.elements[i].payload by {
            assert(kept(v.elements, a, b, 0)[i] == shifted(v.elements[i], a, b, 0));
        }
    } else {
        let k = choose|k: int|
            0 <= k < v.elements.len() && (#[trigger] v.elements[k]).start == p && v.elements[k].end
                == q;
        assert(!inside(v.elements[k], a) && !inside(v.elements[k], b));
        assert(a == p) by {
            if from > p {
                assert(inside(v.elements[k], from));
            } else {
                assert forall|j: int| 0 <= j < v.elements.len() implies !inside(
                    #[trigger] v.elements[j],
                    from,
                ) by {
                    if j < k {
                        assert(apart(v.elements[j], v.elements[k]));
                    } else if k < j {
                        assert(apart(v.elements[k], v.elements[j]));
                    }
                }
            }
        }
        assert(b == q) by {
            if to < q {
                assert(inside(v.elements[k], to));
            } else {
                assert forall|j: int| 0 <= j < v.elements.len() implies !inside(
                    #[trigger] v.elements[j],
                    to,
                ) by {
                    if j < k {
                        assert(apart(v.elements[j], v.elements[k]));
                    } else if k < j {
                        assert(apart(v.elements[k], v.elements[j]));
                    }
                }
            }
        }
        assert forall|j: int| 0 <= j < v.elements.len() && j != k implies !overlaps(
            a,
            b,
            #[trigger] v.elements[j],
        ) && v.elements[j].start != p by {
            if j < k {
                assert(apart(v.elements[j], v.elements[k]));
            } else {
                assert(apart(v.elements[k], v.elements[j]));
            }
        }
        lemma_kept_but_one(v.elements, a, b, 0, k);
        let plain = InputView {
            text: v.text.take(a) + Seq::<char>::empty() + v.text.skip(b),
            cursor: a,
            elements: kept(v.elements, a, b, 0),
        };
        lemma_renumbered_payloads(plain, 0, 0);
        assert(r.elements.len() == v.elements.len() - 1);
        assert forall|i: int| 0 <= i < r.elements.len() implies (
        #[trigger] r.elements[i]).payload == all_but(v.elements, k)[i].payload by {
            assert(plain.elements[i].payload == all_but(v.elements, k)[i].payload) by {
                assert(kept(v.elements, a, b, 0)[i] == plain.elements[i]);
            }
            if drops_image(v.elements, a, b) {
                assert(renumbered(plain, 0, 0).elements[i].payload == plain.elements[i].payload);
            }
        }
        if drops_image(v.elements, a, b) {
            let j = choose|j: int|
                0 <= j < v.elements.len() && is_image(#[trigger] v.elements[j]) && overlaps(
                    a,
                    b,
                    v.elements[j],
                );
            assert(j == k);
        } else {
            assert(!(is_image(v.elements[k]) && overlaps(a, b, v.elements[k])));
            assert(r.text =~= v.text.take(p) + v.text.skip(q));
        }
    }
}

/// Backspace erases the piece that the Left key steps over, and nothing at the beginning of
/// the text.
pub proof fn backspace_erases_what_left_steps_over(v: InputView, back: KeyEvent, left: KeyEvent)
    requires
        v.well_formed(),
        back.code == KeyCode::Backspace,
        left.code == KeyCode::Left,
    ensures
        v.cursor == 0 ==> after_key(v, back) == v,
        v.cursor > 0 ==> erases(v, after_key(v, back), after_key(v, left).cursor, v.cursor),
{
    if v.cursor > 0 {
        left_steps_back_over_one_piece(v, left);
        let p = after_key(v, left).cursor;
        assert forall|k: int| 0 <= k < v.elements.len() implies in_text(
            v.text,
            #[trigger] v.elements[k],
        ) && !inside(v.elements[k], v.cursor) by {}
        if exists|k: int| 0 <= k < v.elements.len() && (#[trigger] v.elements[k]).end == v.cursor {
            let k = choose|k: int|
                0 <= k < v.elements.len() && (#[trigger] v.elements[k]).end == v.cursor;
            assert(v.elements[k].start == p);
        } else {
            assert forall|k: int| 0 <= k < v.elements.len() implies !overlaps(
                p,
                v.cursor,
                #[trigger] v.elements[k],
            ) by {
                assert(v.elements[k].end != v.cursor);
            }
        }
        lemma_erases(v, v.cursor - 1, v.cursor, p, v.cursor);
    }
}

/// Delete erases the piece that the Right key steps over, and nothing at the end of the text.
pub proof fn delete_erases_what_right_steps_over(v: InputView, delete: KeyEvent, right: KeyEvent)
    requires
        v.well_formed(),
        delete.code == KeyCode::Delete,
        right.code == KeyCode::Right,
    ensures
        v.cursor == v.text.len() ==> after_key(v, delete) == v,
        v.cursor < v.text.len() ==> erases(
            v,
            after_key(v, delete),
            v.cursor,
            after_key(v, right).cursor,
        ),
{
    if v.cursor < v.text.len() {
        right_steps_on_over_one_piece(v, right);
        let q = after_key(v, right).cursor;
        assert forall|k: int| 0 <= k < v.elements.len() implies in_text(
            v.text,
            #[trigger] v.elements[k],
        ) && !inside(v.elements[k], v.cursor) by {}
        if exists|k: int| 0 <= k < v.elements.len() && (#[trigger] v.elements[k]).start == v.cursor {
            let k = choose|k: int|
                0 <= k < v.elements.len() && (#[trigger] v.elements[k]).start == v.cursor;
            assert(v.elements[k].end == q);
        } else {
            assert forall|k: int| 0 <= k < v.elements.len() implies !overlaps(
                v.cursor,
                q,
                #[trigger] v.elements[k],
            ) by {
                assert(v.elements[k].start != v.cursor);
            }
        }
        lemma_erases(v, v.cursor, v.cursor + 1, v.cursor, q);
    }
}

/// Control-U erases all that stands before the cursor and keeps what stands behind it,
/// Control-K the other way round. Placeholders on the side that is kept stay, with what they
/// stand for.
pub proof fn control_keys_erase_up_to_the_cursor(v: InputView, key: KeyEvent)
    requires
        v.well_formed(),
        key.modifiers.control,
        key.code == KeyCode::Char('u') || key.code == KeyCode::Char('k'),
    ensures
        ({
            let r = after_key(v, key);
            let before = key.code == KeyCode::Char('u');
            let gone = |e: ElementView|
                if before {
                    e.start < v.cursor
                } else {
                    e.start >= v.cursor
                };
            &&& (forall|k: int|
                0 <= k < v.elements.len() && gone(#[trigger] v.elements[k]) ==> !(
                v.elements[k].payload is Image)) ==> {
                &&& r.text == if before {
                    v.text.skip(v.cursor)
                } else {
                    v.text.take(v.cursor)
                }
                &&& r.cursor == if before {
                    0
                } else {
                    v.cursor
                }
            }
            &&& forall|i: int|
                0 <= i < r.elements.len() ==> exists|k: int|
                    0 <= k < v.elements.len() && !gone(#[trigger] v.elements[k])
                        && v.elements[k].payload == (#[trigger] r.elements[i]).payload
            &&& r.elements.len() == v.elements.filter(|e: ElementView| !gone(e)).len()
        }),
{
    let r = after_key(v, key);
    let before = key.code == KeyCode::Char('u');
    let gone = |e: ElementView|
        if before {
            e.start < v.cursor
        } else {
            e.start >= v.cursor
        };
    let from = if before {
        0
    } else {
        v.cursor
    };
    let to = if before {
        v.cursor
    } else {
        v.text.len() as int
    };
    let (a, b) = lemma_edit(v, from, to, Seq::empty());
    assert forall|k: int| 0 <= k < v.elements.len() implies in_text(
        v.text,
        #[trigger] v.elements[k],
    ) && !inside(v.elements[k], v.cursor) && !inside(v.elements[k], from) && !inside(
        v.elements[k],
        to,
    ) by {}
    assert(a == from && b == to);
    assert forall|k: int| 0 <= k < v.elements.len() implies overlaps(a, b, #[trigger] v.elements[k])
        == gone(v.elements[k]) by {}
    let plain = InputView {
        text: v.text.take(a) + Seq::<char>::empty() + v.text.skip(b),
        cursor: a,
        elements: kept(v.elements, a, b, 0),
    };
    lemma_kept_is_filter(v.elements, a, b, gone);
    lemma_kept(v.text, v.elements, a, b, Seq::empty());
    lemma_renumbered_payloads(plain, 0, 0);
    if forall|k: int|
        0 <= k < v.elements.len() && gone(#[trigger] v.elements[k]) ==> !(
        v.elements[k].payload is Image) {
        assert(!drops_image(v.elements, a, b)) by {
            if drops_image(v.elements, a, b) {
                let k = choose|k: int|
                    0 <= k < v.elements.len() && is_image(#[trigger] v.elements[k]) && overlaps(
                        a,
                        b,
                        v.elements[k],
                    );
                assert(gone(v.elements[k]));
            }
        }
        assert(r.text =~= if before {
            v.text.skip(v.cursor)
        } else {
            v.text.take(v.cursor)
        });
    }
    assert(r.elements.len() == plain.elements.len());
    assert forall|i: int| 0 <= i < r.elements.len() implies exists|k: int|
        0 <= k < v.elements.len() && !gone(#[trigger] v.elements[k]) && v.elements[k].payload == (
        #[trigger] r.elements[i]).payload by {
        assert(plain.elements[i].payload == r.elements[i].payload) by {
            if drops_image(v.elements, a, b) {
                assert(renumbered(plain, 0, 0).elements[i].payload == plain.elements[i].payload);
            }
        }
        let m = choose|m: int|
            0 <= m < v.elements.len() && (v.elements[m].end <= a || b <= v.elements[m].start) && (
            #[trigger] kept(v.elements, a, b, 0)[i]) == shifted(#[trigger] v.elements[m], a, b, 0);
        assert(overlaps(a, b, v.elements[m]) == gone(v.elements[m]));
    }
}

proof fn lemma_kept_is_filter(
    els: Seq<ElementView>,
    a: int,
    b: int,
    gone: spec_fn(ElementView) -> bool,
)
    requires
        forall|k: int| 0 <= k < els.len() ==> overlaps(a, b, #[trigger] els[k]) == gone(els[k]),
    ensures
        kept(els, a, b, 0).len() == els.filter(|e: ElementView| !gone(e)).len(),
    decreases els.len(),
{
    let stays = |e: ElementView| !gone(e);
    reveal(Seq::filter);
    if els.len() > 0 {
        let init = els.drop_last();
        assert forall|k: int| 0 <= k < init.len() implies overlaps(a, b, #[trigger] init[k])
            == gone(init[k]) by {
            assert(init[k] == els[k]);
        }
        lemma_kept_is_filter(init, a, b, gone);
        assert(init.filter(|e: ElementView| !gone(e)) == init.filter(stays));
        assert(overlaps(a, b, els[els.len() - 1]) == gone(els[els.len() - 1]));
        assert(els.filter(stays) == if stays(els.last()) {
            init.filter(stays).push(els.last())
        } else {
            init.filter(stays)
        });
    }
}

proof fn lemma_last_word(s: Seq<char>) -> (m: int)
    ensures
        0 <= last_word_start(s) <= m <= s.len(),
        forall|i: int| last_word_start(s) <= i < m ==> !text::is_space(#[trigger] s[i]),
        forall|i: int| m <= i < s.len() ==> text::is_space(#[trigger] s[i]),
        last_word_start(s) > 0 ==> text::is_space(s[last_word_start(s) - 1]),
        m > 0 ==> !text::is_space(s[m - 1]),
    decreases s.len(),
{
    if s.len() > 0 && text::is_space(s.last()) {
        let m = lemma_last_word(s.drop_last());
        assert(text::trim_end(s) == text::trim_end(s.drop_last()));
        assert forall|i: int| last_word_start(s) <= i < m implies !text::is_space(#[trigger] s[i]) by {
            assert(s.drop_last()[i] == s[i]);
        }
        assert forall|i: int| m <= i < s.len() implies text::is_space(#[trigger] s[i]) by {
            if i < s.len() - 1 {
                assert(s.drop_last()[i] == s[i]);
            }
        }
        m
    } else {
        assert(text::trim_end(s) == s);
        lemma_without_last_word(s);
        s.len() as int
    }
}

proof fn lemma_without_last_word(s: Seq<char>)
    ensures
        without_last_word(s).len() <= s.len(),
        forall|i: int|
            without_last_word(s).len() <= i < s.len() ==> !text::is_space(#[trigger] s[i]),
        without_last_word(s).len() > 0 ==> text::is_space(s[without_last_word(s).len() - 1]),
    decreases s.len(),
{
    if s.len() > 0 && !text::is_space(s.last()) {
        lemma_without_last_word(s.drop_last());
        assert forall|i: int|
            without_last_word(s).len() <= i < s.len() implies !text::is_space(#[trigger] s[i]) by {
            if i < s.len() - 1 {
                assert(s.drop_last()[i] == s[i]);
            }
        }
    }
}

/// Control-W erases the last word before the cursor with the white space behind it: of a text
/// without placeholders a stretch that ends at the cursor, first no white space and then only
/// white space, and that begins behind white space or with the text.
pub proof fn control_w_erases_the_last_word(v: InputView, key: KeyEvent) -> (m: int)
    requires
        v.well_formed(),
        v.elements.len() == 0,
        key.modifiers.control,
        key.code == KeyCode::Char('w'),
    ensures
        ({
            let r = after_key(v, key);
            let p = r.cursor;
            &&& 0 <= p <= m <= v.cursor
            &&& r.text == v.text.take(p) + v.text.skip(v.cursor)
            &&& r.elements.len() == 0
            &&& forall|i: int| p <= i < m ==> !text::is_space(#[trigger] v.text[i])
            &&& forall|i: int| m <= i < v.cursor ==> text::is_space(#[trigger] v.text[i])
            &&& p > 0 ==> text::is_space(v.text[p - 1])
            &&& v.cursor > 0 ==> p < v.cursor
        }),
{
    let before = v.text.take(v.cursor);
    if v.cursor > 0 {
        let m = lemma_last_word(before);
        let p = last_word_start(before) as int;
        let (a, b) = lemma_edit(v, p, v.cursor, Seq::empty());
        let r = after_key(v, key);
        assert(!drops_image(v.elements, a, b));
        assert(r.text =~= v.text.take(p) + v.text.skip(v.cursor));
        assert forall|i: int| 0 <= i < v.cursor implies before[i] == #[trigger] v.text[i] by {}
        if p == v.cursor {
            assert(!text::is_space(before[m - 1]));
            assert(text::is_space(before[p - 1]));
        }
        m
    } else {
        assert(v.text.take(0) + v.text.skip(0) =~= v.text);
        0
    }
}

/// Text without placeholders is sent as it stands.
pub proof fn plain_text_is_sent_as_it_stands(v: InputView, p: int, include_images: bool)
    requires
        v.elements.len() == 0,
        0 <= p <= v.text.len(),
    ensures
        rendered_from(v, p, include_images) == v.text.skip(p),
        rendered(v, include_images) == rendered_from(v, 0, include_images),
    decreases v.text.len() - p,
{
    if p < v.text.len() {
        plain_text_is_sent_as_it_stands(v, p + 1, include_images);
        assert(seq![v.text[p]] + v.text.skip(p + 1) =~= v.text.skip(p));
    } else {
        assert(v.text.skip(p) =~= Seq::<char>::empty());
    }
}

proof fn lemma_starting_at(text: Seq<char>, els: Seq<ElementView>, p: int)
    requires
        placed(text, els),
    ensures
        forall|k: int|
            0 <= k < els.len() && (#[trigger] els[k]).start == p ==> starting_at(els, p) == Some(
                els[k],
            ),
        (forall|k: int| 0 <= k < els.len() ==> (#[trigger] els[k]).start != p) ==> starting_at(
            els,
            p,
        ) is None,
    decreases els.len(),
{
    if els.len() > 0 {
        let init = els.drop_last();
        lemma_placed_prefix(text, els);
        lemma_starting_at(text, init, p);
        let last = els.len() - 1;
        assert(in_text(text, els[last]));
        assert forall|k: int| 0 <= k < els.len() && (#[trigger] els[k]).start == p implies starting_at(
            els,
            p,
        ) == Some(els[k]) by {
            if k < last {
                assert(init[k] == els[k]);
                assert(in_text(text, els[k]));
                assert(apart(els[k], els[last]));
            }
        }
        if forall|k: int| 0 <= k < els.len() ==> (#[trigger] els[k]).start != p {
            assert(els[last].start != p);
            assert forall|k: int| 0 <= k < init.len() implies (#[trigger] init[k]).start != p by {
                assert(init[k] == els[k]);
            }
        }
    }
}

/// In the text that is sent, a placeholder is what it stands for, whole, followed by what the
/// text behind it is sent as: a paste is what was pasted, an image its label or nothing. A
/// character outside of placeholders is itself.
pub proof fn placeholders_are_sent_as_what_they_stand_for(
    v: InputView,
    p: int,
    include_images: bool,
)
    requires
        v.well_formed(),
        0 <= p < v.text.len(),
    ensures
        forall|k: int|
            0 <= k < v.elements.len() && (#[trigger] v.elements[k]).start == p ==> rendered_from(
                v,
                p,
                include_images,
            ) == (match v.elements[k].payload {
                PayloadView::LargePaste(pasted) => pasted,
                PayloadView::Image(_) => if include_images {
                    v.elements[k].placeholder
                } else {
                    Seq::empty()
                },
            }) + rendered_from(v, v.elements[k].end, include_images),
        (forall|k: int| 0 <= k < v.elements.len() ==> (#[trigger] v.elements[k]).start != p)
            ==> rendered_from(v, p, include_images) == seq![v.text[p]] + rendered_from(
            v,
            p + 1,
            include_images,
        ),
        rendered_from(v, v.text.len() as int, include_images).len() == 0,
        rendered(v, include_images) == rendered_from(v, 0, include_images),
{
    lemma_starting_at(v.text, v.elements, p);
    assert forall|k: int| 0 <= k < v.elements.len() implies in_text(
        v.text,
        #[trigger] v.elements[k],
    ) by {}
}

/// The images that go out with a message: one for each in the input, in their order, numbered
/// from one on.
pub proof fn images_go_out_in_order(els: Seq<ElementView>)
    ensures
        ({
            let only = els.filter(|e: ElementView| e.payload is Image);
            &&& images_of(els).len() == only.len()
            &&& forall|i: int|
                0 <= i < only.len() ==> (#[trigger] images_of(els)[i]).0 == image_label(
                    (i + 1) as nat,
                ) && images_of(els)[i].1 == only[i].payload->Image_0
            &&& image_count(els) == only.len()
        }),
    decreases els.len(),
{
    let picks = |e: ElementView| e.payload is Image;
    reveal(Seq::filter);
    if els.len() > 0 {
        let init = els.drop_last();
        images_go_out_in_order(init);
        let before = init.filter(picks);
        assert(before == init.filter(|e: ElementView| e.payload is Image));
        let only = els.filter(picks);
        assert(only == if picks(els.last()) {
            before.push(els.last())
        } else {
            before
        });
        assert forall|i: int| 0 <= i < only.len() implies (#[trigger] images_of(els)[i]).0
            == image_label((i + 1) as nat) && images_of(els)[i].1 == only[i].payload->Image_0 by {
            if i < before.len() {
                assert(images_of(init)[i].0 == image_label((i + 1) as nat));
            }
        }
    }
}

/// A placeholder that is put in stands at the cursor, reads as it should and stands for what it
/// was put in for; the text around it and the other placeholders stay.
pub proof fn placeholders_go_in_at_the_cursor(
    v: InputView,
    placeholder: Seq<char>,
    payload: PayloadView,
)
    requires
        v.well_formed(),
        placeholder.len() > 0,
    ensures
        ({
            let r = with_element(v, placeholder, payload);
            &&& r.text == v.text.take(v.cursor) + placeholder + v.text.skip(v.cursor)
            &&& r.cursor == v.cursor + placeholder.len()
            &&& r.elements.len() == v.elements.len() + 1
            &&& r.elements.last() == (ElementView {
                start: v.cursor,
                end: v.cursor + placeholder.len(),
                placeholder,
                payload,
            })
            &&& forall|i: int|
                0 <= i < v.elements.len() ==> (#[trigger] r.elements[i]).payload
                    == v.elements[i].payload && r.elements[i].placeholder
                    == v.elements[i].placeholder
        }),
{
    lemma_insert(v, placeholder);
    assert forall|i: int| 0 <= i < v.elements.len() implies !overlaps(
        v.cursor,
        v.cursor,
        #[trigger] v.elements[i],
    ) by {
        assert(!inside(v.elements[i], v.cursor));
    }
    let n = placeholder.len() as int;
    lemma_kept_all(v.elements, v.cursor, v.cursor, n);
    let r = with_element(v, placeholder, payload);
    assert forall|i: int| 0 <= i < v.elements.len() implies (#[trigger] r.elements[i]).payload
        == v.elements[i].payload && r.elements[i].placeholder == v.elements[i].placeholder by {
        assert(kept(v.elements, v.cursor, v.cursor, n)[i] == shifted(
            v.elements[i],
            v.cursor,
            v.cursor,
            n,
        ));
    }
}

/// Backspace right behind a placeholder that was put in takes it back and leaves the input as
/// it was, its images with their labels.
pub proof fn backspace_takes_a_placeholder_back(
    v: InputView,
    placeholder: Seq<char>,
    payload: PayloadView,
    back: KeyEvent,
)
    requires
        v.well_formed(),
        placeholder.len() > 0,
        payload is Image ==> placeholder == image_label(image_count(v.elements) + 1)
            && image_count(v.elements) < MAX_USER_IMAGES,
        back.code == KeyCode::Backspace,
    ensures
        after_key(with_element(v, placeholder, payload), back) == v,
{
    let w = with_element(v, placeholder, payload);
    let c = v.cursor;
    let n = placeholder.len() as int;
    lemma_with_element(v, placeholder, payload);
    placeholders_go_in_at_the_cursor(v, placeholder, payload);
    lemma_insert(v, placeholder);
    assert forall|i: int| 0 <= i < v.elements.len() implies !overlaps(c, c, #[trigger] v.elements[i]) by {
        assert(!inside(v.elements[i], c));
    }
    lemma_kept_all(v.elements, c, c, n);
    let last = w.elements.len() - 1;
    assert forall|i: int| 0 <= i < last implies (#[trigger] w.elements[i]) == shifted(
        v.elements[i],
        c,
        c,
        n,
    ) by {
        assert(kept(v.elements, c, c, n)[i] == shifted(v.elements[i], c, c, n));
    }
    let (a, b) = lemma_edit(w, w.cursor - 1, w.cursor, Seq::empty());
    assert(!inside(w.elements[last], a));
    assert(a == c) by {
        if n > 1 {
            assert(inside(w.elements[last], w.cursor - 1));
        } else {
            assert forall|i: int| 0 <= i < w.elements.len() implies !inside(
                #[trigger] w.elements[i],
                w.cursor - 1,
            ) by {
                if i < last {
                    assert(apart(w.elements[i], w.elements[last]));
                    assert(in_text(w.text, w.elements[i]));
                }
            }
        }
    }
    assert(b == w.cursor) by {
        assert forall|i: int| 0 <= i < w.elements.len() implies !inside(
            #[trigger] w.elements[i],
            w.cursor,
        ) by {}
    }
    assert forall|i: int| 0 <= i < w.elements.len() && i != last implies !overlaps(
        a,
        b,
        #[trigger] w.elements[i],
    ) by {
        assert(apart(w.elements[i], w.elements[last]));
    }
    lemma_kept_but_one(w.elements, a, b, 0, last);
    let plain = InputView {
        text: w.text.take(a) + Seq::<char>::empty() + w.text.skip(b),
        cursor: a,
        elements: kept(w.elements, a, b, 0),
    };
    assert(plain.text =~= v.text);
    assert(plain.elements =~= v.elements) by {
        assert forall|i: int| 0 <= i < v.elements.len() implies #[trigger] plain.elements[i]
            == v.elements[i] by {
            assert(kept(w.elements, a, b, 0)[i] == shifted(w.elements[i], a, b, 0));
            assert(in_text(v.text, v.elements[i]));
        }
    }
    assert(v.elements.take(0) =~= Seq::<ElementView>::empty());
    lemma_renumbered_again(v, 0, 0);
}

/// The lines that are on screen are lines of the text, among them the one that the cursor is
/// in, and no more than there is room for.
pub proof fn the_line_of_the_cursor_is_on_screen(v: InputView, max_width: int, max_rows: int)
    requires
        v.well_formed(),
        max_rows > 0,
    ensures
        ({
            let lines = text::split(v.text, '\n');
            let shown = visible_lines(v, max_width, max_rows);
            let first = first_row(v, max_rows);
            &&& 0 <= first <= cursor_line(v) < first + max_rows
            &&& shown.len() <= max_rows
            &&& cursor_line(v) < first + shown.len() <= lines.len()
            &&& lines.len() >= first + max_rows ==> shown.len() == max_rows
            &&& lines.len() <= max_rows && first == 0 ==> shown.len() == lines.len()
            &&& forall|k: int|
                0 <= k < shown.len() && first + k != cursor_line(v) ==> (
                #[trigger] shown[k]).is_prefix_of(lines[first + k])
        }),
{
    let shown = visible_lines(v, max_width, max_rows);
    let first = first_row(v, max_rows);
    let lines = text::split(v.text, '\n');
    text::lemma_split_nonempty(v.text.take(v.cursor), '\n');
    text::lemma_split_prefix(v.text, v.cursor, '\n');
    assert forall|k: int| 0 <= k < shown.len() && first + k != cursor_line(v) implies (
    #[trigger] shown[k]).is_prefix_of(lines[first + k]) by {
        let l = lines[first + k];
        let end = width::fitting_end(l, 0, max_width);
        lemma_fitting_end_in_line(l, 0, max_width);
        assert(l.take(end) =~= l.subrange(0, end));
    }
}

proof fn lemma_fitting_end_in_line(s: Seq<char>, start: int, max_width: int)
    requires
        0 <= start <= s.len(),
    ensures
        start <= width::fitting_end(s, start, max_width) <= s.len(),
    decreases s.len() - start,
{
    if start < s.len() {
        lemma_fitting_end_in_line(s, start + 1, max_width - width::columns(s[start]));
    }
}

/// Every key press keeps an input well formed.
pub proof fn keys_keep_inputs_well_formed(v: InputView, key: KeyEvent)
    requires
        v.well_formed(),
    ensures
        after_key(v, key).well_formed(),
{
    lemma_left_of(v);
    lemma_right_of(v);
    lemma_ends_in_place(v);
    edits_keep_inputs_well_formed(v, 0, v.cursor, Seq::empty());
    edits_keep_inputs_well_formed(v, v.cursor, v.text.len() as int, Seq::empty());
    if key.code is Char {
        edits_keep_inputs_well_formed(v, v.cursor, v.cursor, seq![key.code->Char_0]);
    }
    if v.cursor > 0 {
        edits_keep_inputs_well_formed(v, v.cursor - 1, v.cursor, Seq::empty());
        let before = v.text.take(v.cursor);
        let m = lemma_last_word(before);
        edits_keep_inputs_well_formed(
            v,
            last_word_start(before) as int,
            v.cursor,
            Seq::empty(),
        );
    }
    if v.cursor < v.text.len() {
        edits_keep_inputs_well_formed(v, v.cursor, v.cursor + 1, Seq::empty());
    }
}

} // verus!
