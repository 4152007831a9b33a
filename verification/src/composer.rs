//! The input, its completions and the messages that wait, as they are shown.
use crate::command_style;
use crate::completion;
use crate::completion::{CompletionItem, CompletionMenu};
use crate::layout;
use crate::text;
use crate::ui;
use crate::ui::{Block, Line, LinePart, SemanticColor, Span, SpanView, Style};
use vstd::prelude::*;

verus! {

/// Of the first `n` labels, the one that stands first from `cursor` on; of two at one place,
/// the one that comes first in the list. With it comes its place.
pub open spec fn next_label(line: Seq<char>, labels: Seq<Seq<char>>, cursor: int, n: int) -> Option<
    (int, int),
>
    decreases n,
{
    if n <= 0 {
        None
    } else {
        let before = next_label(line, labels, cursor, n - 1);
        match text::first_place(line, labels[n - 1], cursor) {
            Some(p) => match before {
                Some((q, w)) => if p < q {
                    Some((p, n - 1))
                } else {
                    before
                },
                None => Some((p, n - 1)),
            },
            None => before,
        }
    }
}

pub open spec fn input_style() -> Style {
    ui::colored(SemanticColor::Assistant)
}

pub open spec fn image_style() -> Style {
    ui::colored(SemanticColor::Status).bolded()
}

/// A line of the input from `cursor` on: the labels of pictures stand out.
pub open spec fn labelled(line: Seq<char>, labels: Seq<Seq<char>>, cursor: int) -> Seq<SpanView>
    decreases line.len() - cursor,
{
    if cursor < 0 || cursor >= line.len() {
        Seq::empty()
    } else {
        match next_label(line, labels, cursor, labels.len() as int) {
            None => seq![ui::span(line.skip(cursor), input_style())],
            Some((start, w)) => {
                let end = start + labels[w].len();
                let head = if start > cursor {
                    seq![ui::span(line.subrange(cursor, start), input_style())]
                } else {
                    Seq::empty()
                };
                if cursor <= start && cursor < end <= line.len() {
                    head.push(ui::span(labels[w], image_style())) + labelled(line, labels, end)
                } else {
                    Seq::empty()
                }
            },
        }
    }
}

/// A line of the input.
pub open spec fn input_line(line: Seq<char>, labels: Seq<Seq<char>>) -> Seq<SpanView> {
    if line.len() == 0 {
        seq![ui::span(Seq::empty(), input_style())]
    } else {
        labelled(line, labels, 0)
    }
}

fn find_label(v: &Vec<char>, labels: &Vec<String>, cursor: usize) -> (r: Option<(usize, usize)>)
    requires
        cursor <= v@.len(),
        forall|i: int| 0 <= i < labels@.len() ==> (#[trigger] labels@[i])@.len() > 0,
    ensures
        (match r {
            Some((p, w)) => Some((p as int, w as int)),
            None => None,
        }) == next_label(v@, text::views(labels@), cursor as int, labels@.len() as int),
        r matches Some((p, w)) ==> w < labels@.len() && cursor <= p && p + labels@[w as int]@.len()
            <= v@.len(),
{
    let ghost all = text::views(labels@);
    let mut best: Option<(usize, usize)> = None;
    let mut i: usize = 0;
    while i < labels.len()
        invariant
            i <= labels@.len(),
            cursor <= v@.len(),
            all == text::views(labels@),
            forall|k: int| 0 <= k < labels@.len() ==> (#[trigger] labels@[k])@.len() > 0,
            (match best {
                Some((p, w)) => Some((p as int, w as int)),
                None => None,
            }) == next_label(v@, all, cursor as int, i as int),
            best matches Some((p, w)) ==> w < labels@.len() && cursor <= p && p
                + labels@[w as int]@.len() <= v@.len(),
        decreases labels@.len() - i,
    {
        proof {
            assert(all[i as int] == labels@[i as int]@);
        }
        let needle = text::chars_of(labels[i].as_str());
        match text::find_first(v, &needle, cursor) {
            Some(p) => {
                let better = match best {
                    Some((q, _)) => p < q,
                    None => true,
                };
                if better {
                    best = Some((p, i));
                }
            },
            None => {},
        }
        i = i + 1;
    }
    best
}

/// A line of the input. `image_placeholders` are the labels of the pictures in it.
pub fn styled_input_line(line: &str, image_placeholders: &Vec<String>) -> (r: Line)
    requires
        forall|i: int|
            0 <= i < image_placeholders@.len() ==> (#[trigger] image_placeholders@[i])@.len() > 0,
    ensures
        r@ == input_line(line@, text::views(image_placeholders@)),
{
    let v = text::chars_of(line);
    let ghost labels = text::views(image_placeholders@);
    let mut r = Line::empty();
    if v.len() == 0 {
        let none = String::new();
        proof {
            assert(none@ =~= Seq::empty());
        }
        return Line::one(Span::styled(none, Style::color(SemanticColor::Assistant)));
    }
    let mut cursor: usize = 0;
    proof {
        assert(Seq::<SpanView>::empty() + labelled(v@, labels, 0) =~= labelled(v@, labels, 0));
    }
    while cursor < v.len()
        invariant
            cursor <= v@.len(),
            v@ == line@,
            labels == text::views(image_placeholders@),
            forall|i: int|
                0 <= i < image_placeholders@.len() ==> (#[trigger] image_placeholders@[i])@.len()
                    > 0,
            r@ + labelled(v@, labels, cursor as int) == labelled(v@, labels, 0),
        decreases v@.len() - cursor,
    {
        let ghost before = r@;
        match find_label(&v, image_placeholders, cursor) {
            None => {
                let rest = text::text_of(&v, cursor, v.len());
                proof {
                    assert(rest@ =~= v@.skip(cursor as int));
                }
                r.push(Span::styled(rest, Style::color(SemanticColor::Assistant)));
                cursor = v.len();
                proof {
                    assert(r@ + labelled(v@, labels, cursor as int) =~= r@);
                    assert(r@ =~= before + seq![
                        ui::span(rest@, input_style()),
                    ]);
                }
            },
            Some((start, w)) => {
                let label = image_placeholders[w].as_str();
                let n = text::chars_of(label).len();
                proof {
                    assert(labels[w as int] == label@);
                }
                let ghost end = start + n;
                let ghost head = if start > cursor {
                    seq![ui::span(v@.subrange(cursor as int, start as int), input_style())]
                } else {
                    Seq::empty()
                };
                if start > cursor {
                    r.push(
                        Span::styled(
                            text::text_of(&v, cursor, start),
                            Style::color(SemanticColor::Assistant),
                        ),
                    );
                }
                proof {
                    assert(r@ =~= before + head);
                }
                r.push(Span::of(label, Style::color(SemanticColor::Status).bold()));
                proof {
                    let own = head.push(ui::span(label@, image_style()));
                    assert(r@ =~= before + own);
                    let rest = labelled(v@, labels, end as int);
                    assert(before + (own + rest) =~= (before + own) + rest);
                }
                cursor = start + n;
            },
        }
    }
    proof {
        assert(r@ + labelled(v@, labels, cursor as int) =~= r@);
    }
    r
}

pub open spec fn input_lines(value: Seq<char>, labels: Seq<Seq<char>>) -> Seq<Seq<SpanView>> {
    text::split(value, '\n').map_values(|l: Seq<char>| input_line(l, labels))
}

/// The lines of the input.
pub fn styled_input_lines(value: &str, image_placeholders: &Vec<String>) -> (r: Vec<Line>)
    requires
        forall|i: int|
            0 <= i < image_placeholders@.len() ==> (#[trigger] image_placeholders@[i])@.len() > 0,
    ensures
        ui::line_views(r@) == input_lines(value@, text::views(image_placeholders@)),
{
    let parts = text::split_text(value, '\n');
    let ghost labels = text::views(image_placeholders@);
    let ghost all = input_lines(value@, labels);
    let mut r: Vec<Line> = Vec::new();
    let mut i: usize = 0;
    proof {
        assert(ui::line_views(r@) =~= all.take(0));
        assert(text::views(parts@).len() == parts@.len());
    }
    while i < parts.len()
        invariant
            i <= parts@.len(),
            text::views(parts@) == text::split(value@, '\n'),
            labels == text::views(image_placeholders@),
            all == input_lines(value@, labels),
            forall|i: int|
                0 <= i < image_placeholders@.len() ==> (#[trigger] image_placeholders@[i])@.len()
                    > 0,
            ui::line_views(r@) == all.take(i as int),
        decreases parts@.len() - i,
    {
        ui::push_line(&mut r, styled_input_line(parts[i].as_str(), image_placeholders));
        proof {
            assert(text::views(parts@)[i as int] == parts@[i as int]@);
            assert(all[i as int] == input_line(parts@[i as int]@, labels));
            assert(all.take(i + 1) =~= all.take(i as int).push(all[i as int]));
        }
        i = i + 1;
    }
    proof {
        assert(all.take(i as int) =~= all);
    }
    r
}

proof fn lemma_first_place(s: Seq<char>, needle: Seq<char>, i: int)
    requires
        0 <= i,
    ensures
        text::first_place(s, needle, i) matches Some(p) ==> i <= p && text::stands_at(s, needle, p),
    decreases s.len() - i + 1,
{
    if i + needle.len() <= s.len() && !text::stands_at(s, needle, i) {
        lemma_first_place(s, needle, i + 1);
    }
}

proof fn lemma_next_label(line: Seq<char>, labels: Seq<Seq<char>>, cursor: int, n: int)
    requires
        0 <= cursor,
        n <= labels.len(),
    ensures
        next_label(line, labels, cursor, n) matches Some((p, w)) ==> cursor <= p && 0 <= w < n
            && text::stands_at(line, labels[w], p),
    decreases n,
{
    if n > 0 {
        lemma_next_label(line, labels, cursor, n - 1);
        lemma_first_place(line, labels[n - 1], cursor);
    }
}

/// Making labels stand out drops and changes nothing: the stretches are the line.
pub proof fn labels_keep_the_line(line: Seq<char>, labels: Seq<Seq<char>>, cursor: int)
    requires
        0 <= cursor <= line.len(),
        forall|i: int| 0 <= i < labels.len() ==> (#[trigger] labels[i]).len() > 0,
    ensures
        ui::line_text(labelled(line, labels, cursor)) == line.skip(cursor),
    decreases line.len() - cursor,
{
    reveal_with_fuel(ui::line_text, 3);
    if cursor < line.len() {
        lemma_next_label(line, labels, cursor, labels.len() as int);
        match next_label(line, labels, cursor, labels.len() as int) {
            None => {
                let only = seq![ui::span(line.skip(cursor), input_style())];
                assert(only.drop_last() =~= Seq::empty());
                assert(ui::line_text(only) =~= line.skip(cursor));
            },
            Some((start, w)) => {
                let end = start + labels[w].len();
                assert(labels[w].len() > 0);
                labels_keep_the_line(line, labels, end);
                let head = if start > cursor {
                    seq![ui::span(line.subrange(cursor, start), input_style())]
                } else {
                    Seq::empty()
                };
                let own = head.push(ui::span(labels[w], image_style()));
                command_style::lemma_line_text_concat(own, labelled(line, labels, end));
                assert(own.drop_last() =~= head);
                assert(head.len() > 0 ==> head.drop_last() =~= Seq::empty());
                assert(ui::line_text(head) =~= line.subrange(cursor, start));
                assert(ui::line_text(own) =~= line.subrange(cursor, end));
                assert(line.skip(cursor) =~= line.subrange(cursor, end) + line.skip(end));
            },
        }
    } else {
        assert(line.skip(cursor) =~= Seq::empty());
    }
}

/// The messages of a queue, numbered.
pub open spec fn numbered(texts: Seq<Seq<char>>) -> Seq<Seq<char>> {
    Seq::new(texts.len(), |i: int| text::decimal((i + 1) as nat) + ". "@ + texts[i])
}

/// What a queue holds, in one line.
pub open spec fn queue_text(texts: Seq<Seq<char>>) -> Seq<char> {
    if texts.len() == 0 {
        "--"@
    } else {
        text::join(numbered(texts), " | "@)
    }
}

/// The line of a queue: its name, and what it holds as far as there is room.
pub open spec fn lane_line(label: Seq<char>, texts: Seq<Seq<char>>, width: u16) -> ui::BlockView {
    ui::BlockView::Composed(
        seq![
            ui::LinePartView::Span(
                ui::span(
                    text::padded(label, 10) + " "@,
                    ui::colored(SemanticColor::Focus).bolded(),
                ),
            ),
            ui::LinePartView::Shortened {
                front: ""@,
                text: queue_text(texts),
                width: layout::rest_of(
                    width as int,
                    (text::padded(label, 10) + " "@).len() as int,
                ) as usize,
                style: ui::colored(SemanticColor::Muted),
            },
        ],
    )
}

fn queue_content(texts: &Vec<String>) -> (r: String)
    ensures
        r@ == queue_text(text::views(texts@)),
{
    let ghost all = numbered(text::views(texts@));
    if texts.len() == 0 {
        return "--".to_owned();
    }
    let mut parts: Vec<String> = Vec::new();
    let mut i: usize = 0;
    proof {
        assert(text::views(parts@) =~= all.take(0));
        assert(text::views(texts@).len() == texts@.len());
    }
    while i < texts.len()
        invariant
            i <= texts@.len(),
            all == numbered(text::views(texts@)),
            text::views(parts@) == all.take(i as int),
        decreases texts@.len() - i,
    {
        let ghost before = parts@;
        let part = text::cat3(
            text::decimal_text(i as u64 + 1).as_str(),
            ". ",
            texts[i].as_str(),
        );
        parts.push(part);
        proof {
            assert(text::views(texts@)[i as int] == texts@[i as int]@);
            assert(all[i as int] == part@);
            assert(text::views(parts@) =~= text::views(before).push(part@));
            assert(all.take(i + 1) =~= all.take(i as int).push(all[i as int]));
        }
        i = i + 1;
    }
    proof {
        assert(all.take(i as int) =~= all);
    }
    text::join_texts(&parts, " | ")
}

/// The line of a queue.
pub fn queue_lane(label: &'static str, texts: &Vec<String>, width: u16) -> (r: Block)
    ensures
        r@ == lane_line(label@, text::views(texts@), width),
{
    let name = text::cat2(text::pad_right(label, 10).as_str(), " ");
    let taken = text::chars_of(name.as_str()).len();
    let parts = vec![
        LinePart::Span(Span::styled(name, Style::color(SemanticColor::Focus).bold())),
        LinePart::Shortened {
            front: "",
            text: queue_content(texts),
            width: (width as usize).saturating_sub(taken),
            style: Style::color(SemanticColor::Muted),
        },
    ];
    proof {
        assert(ui::line_parts(parts@) =~= lane_line(
            label@,
            text::views(texts@),
            width,
        )->Composed_0);
    }
    Block::Composed(parts)
}

/// The messages that wait.
#[derive(Debug, PartialEq, Eq)]
pub struct QueuePreview {
    pub next: Vec<String>,
    pub suspended: Vec<String>,
    pub backlog: Vec<String>,
}

/// The lines of the queues.
pub fn queue_lines(queue: &QueuePreview, width: u16) -> (r: Vec<Block>)
    ensures
        ui::block_views(r@) == seq![
            lane_line("Next"@, text::views(queue.next@), width),
            lane_line("Suspended"@, text::views(queue.suspended@), width),
            lane_line("Backlog"@, text::views(queue.backlog@), width),
        ],
{
    let r = vec![
        queue_lane("Next", &queue.next, width),
        queue_lane("Suspended", &queue.suspended, width),
        queue_lane("Backlog", &queue.backlog, width),
    ];
    proof {
        assert(ui::block_views(r@) =~= seq![
            lane_line("Next"@, text::views(queue.next@), width),
            lane_line("Suspended"@, text::views(queue.suspended@), width),
            lane_line("Backlog"@, text::views(queue.backlog@), width),
        ]);
    }
    r
}

/// The columns of a completion behind its mark.
pub open spec fn completion_room(width: u16) -> int {
    layout::rest_of(width as int, 2)
}

/// How many characters of what is said about a completion are shown: half of the room, behind
/// two blanks; none where there is nothing to say or too little room.
pub open spec fn detail_room(detail: Option<Seq<char>>, width: u16) -> Option<usize> {
    if detail is Some && detail->0.len() > 0 && completion_room(width) / 2 > 2 {
        Some((completion_room(width) / 2 - 2) as usize)
    } else {
        None
    }
}

pub fn completion_detail_width(item: &CompletionItem, width: u16) -> (r: Option<usize>)
    ensures
        r == detail_room(item@.detail, width),
{
    let room: usize = (width as usize).saturating_sub(2);
    match item.detail() {
        Some(d) => if !d.is_empty() && room / 2 > 2 {
            Some(room / 2 - 2)
        } else {
            None
        },
        None => None,
    }
}

/// How the completions look.
pub open spec fn completion_style(selected: bool) -> Style {
    if selected {
        ui::colored(SemanticColor::Focus).bolded()
    } else {
        ui::colored(SemanticColor::Muted)
    }
}

/// What is said about a completion, as it is shown. `cut` is that, cut to its room.
pub open spec fn shown_detail(item: completion::ItemView, cut: Seq<char>, width: u16) -> Seq<char> {
    if detail_room(item.detail, width) is Some {
        "  "@ + cut
    } else {
        Seq::empty()
    }
}

/// The line of a completion.
pub open spec fn completion_line(
    item: completion::ItemView,
    selected: bool,
    cut: Seq<char>,
    width: u16,
) -> ui::BlockView {
    let style = completion_style(selected);
    let detail = shown_detail(item, cut, width);
    ui::BlockView::Composed(
        seq![
            ui::LinePartView::Span(
                ui::span(
                    if selected {
                        "> "@
                    } else {
                        "  "@
                    },
                    style,
                ),
            ),
            ui::LinePartView::Shortened {
                front: ""@,
                text: item.value,
                width: layout::rest_of(completion_room(width), detail.len() as int) as usize,
                style,
            },
            ui::LinePartView::Span(ui::span(detail, ui::colored(SemanticColor::Muted))),
        ],
    )
}

fn completion_block(item: &CompletionItem, selected: bool, cut: &str, width: u16) -> (r: Block)
    ensures
        r@ == completion_line(item@, selected, cut@, width),
{
    let style = if selected {
        Style::color(SemanticColor::Focus).bold()
    } else {
        Style::color(SemanticColor::Muted)
    };
    let detail = match completion_detail_width(item, width) {
        Some(_) => text::cat2("  ", cut),
        None => {
            let none = String::new();
            proof {
                assert(none@ =~= Seq::empty());
            }
            none
        },
    };
    let taken = text::chars_of(detail.as_str()).len();
    let room: usize = (width as usize).saturating_sub(2);
    let parts = vec![
        LinePart::Span(
            Span::of(
                if selected {
                    "> "
                } else {
                    "  "
                },
                style,
            ),
        ),
        LinePart::Shortened {
            front: "",
            text: item.value().to_owned(),
            width: room.saturating_sub(taken),
            style,
        },
        LinePart::Span(Span::styled(detail, Style::color(SemanticColor::Muted))),
    ];
    proof {
        assert(ui::line_parts(parts@) =~= completion_line(
            item@,
            selected,
            cut@,
            width,
        )->Composed_0);
    }
    Block::Composed(parts)
}

/// The lines of a menu of completions, as many as there is room for.
pub open spec fn completion_blocks(
    menu: completion::MenuView,
    cuts: Seq<Seq<char>>,
    width: u16,
    height: u16,
) -> Seq<ui::BlockView> {
    Seq::new(
        layout::smaller(menu.items.len() as int, height as int) as nat,
        |i: int| completion_line(menu.items[i], i == menu.selected, cuts[i], width),
    )
}

/// The lines of a menu. `cuts` is, for each completion, what is said about it, cut to the room
/// that `completion_detail_width` gives.
pub fn completion_lines(menu: &CompletionMenu, cuts: &Vec<String>, width: u16, height: u16) -> (r:
    Vec<Block>)
    requires
        cuts@.len() >= menu@.items.len(),
    ensures
        ui::block_views(r@) == completion_blocks(menu@, text::views(cuts@), width, height),
{
    let ghost all = completion_blocks(menu@, text::views(cuts@), width, height);
    let items = menu.items();
    let selected = menu.selected_index();
    let mut r: Vec<Block> = Vec::new();
    let mut i: usize = 0;
    proof {
        assert(ui::block_views(r@) =~= all.take(0));
        assert(completion::item_views(items@).len() == items@.len());
    }
    while i < items.len() && i < height as usize
        invariant
            i <= items@.len(),
            i <= height,
            cuts@.len() >= items@.len(),
            completion::item_views(items@) == menu@.items,
            selected == menu@.selected,
            all == completion_blocks(menu@, text::views(cuts@), width, height),
            ui::block_views(r@) == all.take(i as int),
        decreases items@.len() - i,
    {
        ui::push_block(
            &mut r,
            completion_block(&items[i], i == selected, cuts[i].as_str(), width),
        );
        proof {
            assert(completion::item_views(items@)[i as int] == items@[i as int]@);
            assert(text::views(cuts@)[i as int] == cuts@[i as int]@);
            assert(all.take(i + 1) =~= all.take(i as int).push(all[i as int]));
        }
        i = i + 1;
    }
    proof {
        assert(all.take(i as int) =~= all);
    }
    r
}

/// The label that stands out next is one of the given ones, stands there, and no label stands
/// between the cursor and it; where none is found none stands behind the cursor.
pub proof fn the_next_label_comes_first(
    line: Seq<char>,
    labels: Seq<Seq<char>>,
    cursor: int,
    n: int,
)
    requires
        0 <= cursor,
        0 <= n <= labels.len(),
    ensures
        next_label(line, labels, cursor, n) matches Some((p, w)) ==> {
            &&& cursor <= p && 0 <= w < n && text::stands_at(line, labels[w], p)
            &&& forall|v: int, k: int|
                0 <= v < n && cursor <= k < p ==> !#[trigger] text::stands_at(line, labels[v], k)
        },
        next_label(line, labels, cursor, n) is None ==> (forall|v: int, k: int|
            0 <= v < n && cursor <= k ==> !#[trigger] text::stands_at(line, labels[v], k)),
    decreases n,
{
    if n > 0 {
        the_next_label_comes_first(line, labels, cursor, n - 1);
        text::first_places_come_first(line, labels[n - 1], cursor);
    }
}

/// A queue shows every message that it holds, each behind its number, in their order.
pub proof fn queues_show_every_message(texts: Seq<Seq<char>>, k: int)
    requires
        0 <= k < texts.len(),
    ensures
        numbered(texts).len() == texts.len(),
        texts[k].is_suffix_of(numbered(texts)[k]),
        text::decimal((k + 1) as nat).is_prefix_of(numbered(texts)[k]),
        queue_text(texts) == text::join(numbered(texts), " | "@),
        queue_text(Seq::empty()) == "--"@,
{
    let number = text::decimal((k + 1) as nat);
    let shown = numbered(texts)[k];
    assert(shown == number + ". "@ + texts[k]);
    assert(texts[k] =~= shown.subrange(shown.len() - texts[k].len(), shown.len() as int));
    assert(number =~= shown.subrange(0, number.len() as int));
}

} // verus!
