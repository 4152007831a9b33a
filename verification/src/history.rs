//! The history of sent inputs and walking through it.
use crate::input;
use crate::input::TextInput;
use crate::text;
use vstd::prelude::*;

verus! {

/// The most inputs that the history keeps.
pub const MAX_INPUT_HISTORY: usize = 200;

/// The last `MAX_INPUT_HISTORY` of some entries.
pub open spec fn capped(entries: Seq<Seq<char>>) -> Seq<Seq<char>> {
    if entries.len() <= MAX_INPUT_HISTORY {
        entries
    } else {
        entries.skip(entries.len() - MAX_INPUT_HISTORY)
    }
}

/// The history once `text` has been sent: a blank text and a repetition of the last
/// entry leave it as it is.
pub open spec fn pushed(entries: Seq<Seq<char>>, text: Seq<char>) -> Seq<Seq<char>> {
    if text::is_blank(text) || (entries.len() > 0 && entries.last() == text) {
        entries
    } else {
        capped(entries.push(text))
    }
}

/// The history that results from sending each entry in turn.
pub open spec fn normalized(entries: Seq<Seq<char>>) -> Seq<Seq<char>>
    decreases entries.len(),
{
    if entries.len() == 0 {
        entries
    } else {
        pushed(normalized(entries.drop_last()), entries.last())
    }
}

/// No entry is blank, none repeats the one before it, and there are not too many.
pub open spec fn is_history(entries: Seq<Seq<char>>) -> bool {
    &&& entries.len() <= MAX_INPUT_HISTORY
    &&& forall|i: int| 0 <= i < entries.len() ==> !text::is_blank(#[trigger] entries[i])
    &&& forall|i: int| 0 < i < entries.len() ==> #[trigger] entries[i] != entries[i - 1]
}

/// Sending a text keeps a history a history.
pub proof fn pushing_keeps_a_history(entries: Seq<Seq<char>>, text: Seq<char>)
    requires
        is_history(entries),
    ensures
        is_history(pushed(entries, text)),
{
    if !(text::is_blank(text) || (entries.len() > 0 && entries.last() == text)) {
        let all = entries.push(text);
        let r = pushed(entries, text);
        let d = all.len() - r.len();
        assert forall|i: int| 0 <= i < r.len() implies !text::is_blank(#[trigger] r[i]) by {
            assert(r[i] == all[i + d]);
            if i + d < entries.len() {
                assert(all[i + d] == entries[i + d]);
            }
        }
        assert forall|i: int| 0 < i < r.len() implies #[trigger] r[i] != r[i - 1] by {
            assert(r[i] == all[i + d]);
            assert(r[i - 1] == all[i - 1 + d]);
            if i + d < entries.len() {
                assert(all[i + d] == entries[i + d]);
            }
            assert(all[i - 1 + d] == entries[i - 1 + d]);
        }
    }
}

/// Whatever the entries, normalizing them gives a history.
pub proof fn normalizing_gives_a_history(entries: Seq<Seq<char>>)
    ensures
        is_history(normalized(entries)),
    decreases entries.len(),
{
    if entries.len() > 0 {
        normalizing_gives_a_history(entries.drop_last());
        pushing_keeps_a_history(normalized(entries.drop_last()), entries.last());
    }
}

/// Normalizing leaves a history as it is; so normalizing twice changes no more than once.
pub proof fn a_history_is_normal(entries: Seq<Seq<char>>)
    requires
        is_history(entries),
    ensures
        normalized(entries) == entries,
    decreases entries.len(),
{
    if entries.len() > 0 {
        let init = entries.drop_last();
        assert forall|i: int| 0 <= i < init.len() implies !text::is_blank(#[trigger] init[i]) by {
            assert(init[i] == entries[i]);
        }
        assert forall|i: int| 0 < i < init.len() implies #[trigger] init[i] != init[i - 1] by {
            assert(init[i] == entries[i]);
        }
        a_history_is_normal(init);
        assert(!text::is_blank(entries[entries.len() - 1]));
        if init.len() > 0 {
            assert(entries[entries.len() - 1] != entries[entries.len() - 2]);
        }
        assert(init.push(entries.last()) =~= entries);
    }
}

/// Normalizing twice changes no more than normalizing once.
pub proof fn normalizing_is_idempotent(entries: Seq<Seq<char>>)
    ensures
        normalized(normalized(entries)) == normalized(entries),
{
    normalizing_gives_a_history(entries);
    a_history_is_normal(normalized(entries));
}

/// Adds a sent text to the history.
pub fn push_input_history_entry(entries: &mut Vec<String>, text: &str)
    ensures
        text::views(final(entries)@) == pushed(text::views(old(entries)@), text@),
{
    let ghost before = entries@;
    proof {
        assert(text::views(before).len() == before.len());
    }
    if text::blank(text) {
        return ;
    }
    if entries.len() > 0 {
        let last: usize = entries.len() - 1;
        proof {
            assert(text::views(before).last() == before[last as int]@);
        }
        if text::same(entries[last].as_str(), text) {
            return ;
        }
    }
    entries.push(text.to_owned());
    let ghost all = entries@;
    proof {
        assert(text::views(all) =~= text::views(before).push(text@));
    }
    let total: usize = entries.len();
    let mut dropped: usize = 0;
    while entries.len() > MAX_INPUT_HISTORY
        invariant
            dropped <= all.len(),
            entries@ == all.skip(dropped as int),
            all.len() == total,
            dropped == 0 || all.len() - dropped >= MAX_INPUT_HISTORY,
        decreases entries@.len(),
    {
        let _ = entries.remove(0);
        proof {
            assert(all.skip(dropped as int).remove(0) =~= all.skip(dropped + 1));
        }
        dropped += 1;
    }
    proof {
        assert(text::views(entries@) =~= text::views(all).skip(dropped as int));
        assert(text::views(all).skip(0) =~= text::views(all));
    }
}

/// The history that the entries make up.
pub fn normalize_input_history(entries: Vec<String>) -> (r: Vec<String>)
    ensures
        text::views(r@) == normalized(text::views(entries@)),
        is_history(text::views(r@)),
{
    let mut r: Vec<String> = Vec::new();
    let ghost all = text::views(entries@);
    proof {
        assert(text::views(r@) =~= normalized(all.take(0)));
    }
    let mut i: usize = 0;
    while i < entries.len()
        invariant
            i <= entries@.len(),
            all == text::views(entries@),
            text::views(r@) == normalized(all.take(i as int)),
        decreases entries@.len() - i,
    {
        proof {
            assert(all.take(i + 1).drop_last() =~= all.take(i as int));
            assert(all.take(i + 1).last() == entries@[i as int]@);
            normalizing_gives_a_history(all.take(i as int));
            assert(text::views(r@).len() == r@.len());
        }
        push_input_history_entry(&mut r, entries[i].as_str());
        i += 1;
    }
    proof {
        assert(all.take(i as int) =~= all);
        normalizing_gives_a_history(all);
    }
    r
}

/// What the history knows: its entries, the entry that is shown, and the draft set aside.
pub struct HistoryView {
    pub entries: Seq<Seq<char>>,
    pub navigation: Option<int>,
    pub draft: input::InputView,
}

impl HistoryView {
    /// The entries make up a history, and the entry shown is one of them.
    pub open spec fn well_formed(self) -> bool {
        &&& is_history(self.entries)
        &&& self.navigation matches Some(i) ==> 0 <= i < self.entries.len()
        &&& self.draft.well_formed()
    }
}

/// Walks through sent inputs, with the draft set aside meanwhile.
#[derive(Debug, PartialEq, Eq)]
pub struct InputHistory {
    entries: Vec<String>,
    navigation: Option<usize>,
    draft: TextInput,
}

impl View for InputHistory {
    type V = HistoryView;

    closed spec fn view(&self) -> HistoryView {
        HistoryView {
            entries: text::views(self.entries@),
            navigation: match self.navigation {
                Some(i) => Some(i as int),
                None => None,
            },
            draft: self.draft@,
        }
    }
}

impl Default for InputHistory {
    fn default() -> (r: Self)
        ensures
            r@.entries.len() == 0,
            r@.navigation is None,
            r@.draft == input::empty_input(),
            r@.well_formed(),
    {
        InputHistory { entries: Vec::new(), navigation: None, draft: TextInput::default() }
    }
}

/// One step back: the entry before the one shown, at first the last one, with what the draft
/// says set aside.
pub open spec fn stepped_back(h: HistoryView, shown: input::InputView) -> (
    HistoryView,
    input::InputView,
) {
    if h.entries.len() == 0 {
        (h, shown)
    } else {
        let i = match h.navigation {
            Some(i) => if i > 0 {
                i - 1
            } else {
                0
            },
            None => h.entries.len() - 1,
        };
        (
            HistoryView {
                navigation: Some(i),
                draft: if h.navigation is None {
                    input::plain_input(input::rendered(shown, false))
                } else {
                    h.draft
                },
                ..h
            },
            input::plain_input(h.entries[i]),
        )
    }
}

/// One step forth: the entry behind the one shown, and behind the last one the draft again.
pub open spec fn stepped_forth(h: HistoryView, shown: input::InputView) -> (
    HistoryView,
    input::InputView,
) {
    match h.navigation {
        None => (h, shown),
        Some(i) => if i + 1 < h.entries.len() {
            (
                HistoryView { navigation: Some(i + 1), ..h },
                input::plain_input(h.entries[i + 1]),
            )
        } else {
            (HistoryView { navigation: None, draft: input::empty_input(), ..h }, h.draft)
        },
    }
}

/// So many steps back.
pub open spec fn walked_back(h: HistoryView, shown: input::InputView, steps: nat) -> (
    HistoryView,
    input::InputView,
)
    decreases steps,
{
    if steps == 0 {
        (h, shown)
    } else {
        let (before, seen) = walked_back(h, shown, (steps - 1) as nat);
        stepped_back(before, seen)
    }
}

/// So many steps forth.
pub open spec fn walked_forth(h: HistoryView, shown: input::InputView, steps: nat) -> (
    HistoryView,
    input::InputView,
)
    decreases steps,
{
    if steps == 0 {
        (h, shown)
    } else {
        let (before, seen) = walked_forth(h, shown, (steps - 1) as nat);
        stepped_forth(before, seen)
    }
}

impl InputHistory {
    /// Adds a sent text and ends the walk.
    pub fn record(&mut self, text: &str)
        requires
            old(self)@.well_formed(),
        ensures
            final(self)@.entries == pushed(old(self)@.entries, text@),
            final(self)@.navigation is None,
            final(self)@.draft == input::empty_input(),
            final(self)@.well_formed(),
    {
        proof {
            pushing_keeps_a_history(self@.entries, text@);
            assert(text::views(self.entries@).len() == self.entries@.len());
        }
        push_input_history_entry(&mut self.entries, text);
        self.navigation = None;
        self.draft.clear();
    }

    /// Takes over other entries and ends the walk.
    pub fn replace_entries(&mut self, entries: Vec<String>)
        ensures
            final(self)@.entries == normalized(text::views(entries@)),
            final(self)@.navigation is None,
            final(self)@.draft == input::empty_input(),
            final(self)@.well_formed(),
    {
        self.entries = normalize_input_history(entries);
        self.navigation = None;
        self.draft.clear();
    }

    pub fn entries(&self) -> (r: &Vec<String>)
        ensures
            text::views(r@) == self@.entries,
    {
        &self.entries
    }

    /// Shows the entry before the one shown; at first the last one, with the draft set aside.
    pub fn previous(&mut self, input: &mut TextInput)
        requires
            old(self)@.well_formed(),
            old(input)@.well_formed(),
        ensures
            final(self)@.well_formed(),
            final(input)@.well_formed(),
            (final(self)@, final(input)@) == stepped_back(old(self)@, old(input)@),
    {
        proof {
            assert(text::views(self.entries@).len() == self.entries@.len());
        }
        if self.entries.len() == 0 {
            return ;
        }
        let index: usize = match self.navigation {
            Some(index) => index.saturating_sub(1),
            None => {
                self.draft.replace_text(input.rendered_text(false));
                self.entries.len() - 1
            },
        };
        self.navigation = Some(index);
        proof {
            assert(self.entries@[index as int]@ == text::views(self.entries@)[index as int]);
        }
        input.replace_text(self.entries[index].clone());
    }

    /// Shows the entry behind the one shown; behind the last one, the draft again.
    pub fn next(&mut self, input: &mut TextInput)
        requires
            old(self)@.well_formed(),
            old(input)@.well_formed(),
        ensures
            final(self)@.well_formed(),
            final(input)@.well_formed(),
            (final(self)@, final(input)@) == stepped_forth(old(self)@, old(input)@),
    {
        proof {
            assert(text::views(self.entries@).len() == self.entries@.len());
        }
        match self.navigation {
            None => {},
            Some(index) => {
                if index + 1 < self.entries.len() {
                    let index: usize = index + 1;
                    self.navigation = Some(index);
                    proof {
                        assert(self.entries@[index as int]@ == text::views(
                            self.entries@,
                        )[index as int]);
                    }
                    input.replace_text(self.entries[index].clone());
                } else {
                    self.navigation = None;
                    let mut draft = TextInput::default();
                    std::mem::swap(&mut draft, &mut self.draft);
                    *input = draft;
                }
            },
        }
    }
}

proof fn lemma_walked_back(h: HistoryView, shown: input::InputView, steps: nat)
    requires
        h.entries.len() > 0,
        h.navigation is None,
        steps > 0,
    ensures
        ({
            let i = if steps <= h.entries.len() {
                h.entries.len() - steps
            } else {
                0
            };
            walked_back(h, shown, steps) == (
                HistoryView {
                    navigation: Some(i),
                    draft: input::plain_input(input::rendered(shown, false)),
                    ..h
                },
                input::plain_input(h.entries[i]),
            )
        }),
    decreases steps,
{
    reveal_with_fuel(walked_back, 2);
    if steps > 1 {
        lemma_walked_back(h, shown, (steps - 1) as nat);
    }
}

proof fn lemma_walked_forth(h: HistoryView, shown: input::InputView, i: int, steps: nat)
    requires
        h.navigation == Some(i),
        0 <= i < h.entries.len(),
    ensures
        steps == 0 ==> walked_forth(h, shown, steps) == (h, shown),
        steps > 0 && i + steps < h.entries.len() ==> walked_forth(h, shown, steps) == (
            HistoryView { navigation: Some(i + steps), ..h },
            input::plain_input(h.entries[i + steps]),
        ),
        i + steps >= h.entries.len() ==> walked_forth(h, shown, steps) == (
            HistoryView { navigation: None, draft: input::empty_input(), ..h },
            h.draft,
        ),
    decreases steps,
{
    if steps > 0 {
        lemma_walked_forth(h, shown, i, (steps - 1) as nat);
    }
}

/// Going back and then as often forth, however often, ends the walk and brings the draft back:
/// what it says, and the draft itself where it is plain text with the cursor at its end.
pub proof fn back_and_forth_restores_the_draft(
    h: HistoryView,
    draft: input::InputView,
    steps: nat,
)
    requires
        h.navigation is None,
    ensures
        ({
            let (away, seen) = walked_back(h, draft, steps);
            let (home, restored) = walked_forth(away, seen, steps);
            &&& home.entries == h.entries
            &&& home.navigation is None
            &&& restored == (if steps == 0 || h.entries.len() == 0 {
                draft
            } else {
                input::plain_input(input::rendered(draft, false))
            })
            &&& draft == input::plain_input(draft.text) ==> restored == draft
        }),
{
    if steps > 0 && h.entries.len() > 0 {
        let (away, seen) = walked_back(h, draft, steps);
        lemma_walked_back(h, draft, steps);
        lemma_walked_forth(away, seen, away.navigation->0, steps);
    } else {
        lemma_no_walk(h, draft, steps);
    }
    if draft == input::plain_input(draft.text) {
        lemma_plain_renders_itself(draft.text, 0);
        assert(draft.text.skip(0) =~= draft.text);
    }
}

proof fn lemma_no_walk(h: HistoryView, shown: input::InputView, steps: nat)
    requires
        h.navigation is None,
        steps == 0 || h.entries.len() == 0,
    ensures
        walked_back(h, shown, steps) == (h, shown),
        walked_forth(h, shown, steps) == (h, shown),
    decreases steps,
{
    if steps > 0 {
        lemma_no_walk(h, shown, (steps - 1) as nat);
    }
}

proof fn lemma_plain_renders_itself(text: Seq<char>, p: int)
    requires
        0 <= p <= text.len(),
    ensures
        input::rendered_from(input::plain_input(text), p, false) == text.skip(p),
    decreases text.len() - p,
{
    if p < text.len() {
        lemma_plain_renders_itself(text, p + 1);
        assert(seq![text[p]] + text.skip(p + 1) =~= text.skip(p));
    } else {
        assert(text.skip(p) =~= Seq::<char>::empty());
    }
}

/// A sent text is the last entry of the history, behind the ones that were there before it, in
/// their order; where there were as many as the history keeps, the oldest one goes. A blank
/// text and a repetition of the last one change nothing.
pub proof fn sent_texts_come_last(entries: Seq<Seq<char>>, text: Seq<char>)
    requires
        entries.len() <= MAX_INPUT_HISTORY,
    ensures
        ({
            let after = pushed(entries, text);
            let told = (exists|i: int| 0 <= i < text.len() && !text::is_space(#[trigger] text[i]))
                && (entries.len() == 0 || entries.last() != text);
            &&& !told ==> after == entries
            &&& told ==> after.len() > 0 && after.last() == text && after.drop_last().is_suffix_of(
                entries,
            )
            &&& told && entries.len() < MAX_INPUT_HISTORY ==> after.drop_last() == entries
            &&& told && entries.len() == MAX_INPUT_HISTORY ==> after.len() == MAX_INPUT_HISTORY
        }),
{
    let after = pushed(entries, text);
    if after != entries {
        assert(after.drop_last() =~= entries.subrange(
            entries.len() - after.drop_last().len(),
            entries.len() as int,
        ));
        if entries.len() < MAX_INPUT_HISTORY {
            assert(after.drop_last() =~= entries);
        }
    }
    if !text::is_blank(text) {
        let i = choose|i: int| 0 <= i < text.len() && !text::is_space(#[trigger] text[i]);
        assert(!text::is_space(text[i]));
    }
    if !text::is_blank(text) && (entries.len() == 0 || entries.last() != text) {
        assert(after.last() == text);
        assert(after.drop_last() =~= entries.subrange(
            entries.len() - after.drop_last().len(),
            entries.len() as int,
        ));
        if entries.len() < MAX_INPUT_HISTORY {
            assert(after.drop_last() =~= entries);
        }
    }
}

/// Steps back show the entries from the last one on, one after the other, and stay at the
/// first; each is shown as it was sent, with the cursor behind it. Steps forth lead the other
/// way. Neither changes the entries.
pub proof fn steps_show_one_entry_after_the_other(h: HistoryView, shown: input::InputView)
    requires
        h.well_formed(),
        h.entries.len() > 0,
    ensures
        ({
            let (back, seen) = stepped_back(h, shown);
            let (forth, next) = stepped_forth(h, shown);
            let again = stepped_forth(back, seen);
            &&& back.entries == h.entries
            &&& forth.entries == h.entries
            &&& back.navigation is Some
            &&& seen.text == h.entries[back.navigation->0]
            &&& seen.cursor == seen.text.len()
            &&& seen.elements.len() == 0
            &&& h.navigation is None ==> back.navigation == Some(h.entries.len() - 1)
            &&& h.navigation == Some(0int) ==> back.navigation == Some(0int)
            &&& h.navigation matches Some(i) ==> (i > 0 ==> back.navigation == Some(i - 1)
                && again.0.navigation == Some(i) && again.1.text == h.entries[i])
            &&& h.navigation matches Some(i) ==> (i + 1 < h.entries.len() ==> forth.navigation
                == Some(i + 1) && next.text == h.entries[i + 1] && next.cursor == next.text.len())
            &&& h.navigation == Some(h.entries.len() - 1) ==> forth.navigation is None && next
                == h.draft
            &&& h.navigation is None ==> forth == h && next == shown
            &&& h.navigation is Some ==> back.draft == h.draft
        }),
{
}

} // verus!
