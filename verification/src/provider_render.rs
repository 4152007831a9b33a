//! How the overlays about providers and models are drawn.
use crate::input;
use crate::layout;
use crate::layout::{Constraint, Rect};
use crate::overlay_render;
use crate::overlay_render::OverlayDrawing;
use crate::preferences;
use crate::provider_form;
use crate::provider_form::{ManagedProviderKind, ProviderFormField, ProviderFormOverlay};
use crate::provider_overlay;
use crate::provider_overlay::{
    ConfiguredProviderKind, ModelListItem, ModelPickerOverlay, OpenAiProtocol,
    ProviderConfigSource, ProviderListItem, ProviderManagerOverlay,
};
use crate::reasoning_picker;
use crate::reasoning_picker::ReasoningPickerOverlay;
use crate::text;
use crate::ui;
use crate::ui::{Line, SemanticColor, Span, SpanView, Style};
use vstd::prelude::*;

verus! {

/// The most columns that these overlays take.
pub const PROVIDER_OVERLAY_WIDTH: u16 = 82;

/// A key, and what it does.
pub type Hint = (&'static str, &'static str);

/// A key, and what it does.
pub type HintView = (Seq<char>, Seq<char>);

pub open spec fn hint_views(v: Seq<Hint>) -> Seq<HintView> {
    v.map_values(|h: Hint| (h.0@, h.1@))
}

/// The line that lists keys.
pub open spec fn hint_line(actions: Seq<HintView>) -> Seq<SpanView>
    decreases actions.len(),
{
    if actions.len() == 0 {
        Seq::empty()
    } else {
        let before = hint_line(actions.drop_last());
        let apart = if actions.len() > 1 {
            before.push(ui::span("   "@, ui::colored(SemanticColor::Muted)))
        } else {
            before
        };
        apart.push(
            ui::span(actions.last().0, ui::colored(SemanticColor::Focus).bolded()),
        ).push(ui::span(" "@ + actions.last().1, ui::colored(SemanticColor::Muted)))
    }
}

pub fn action_hint_line(actions: &Vec<Hint>) -> (r: Line)
    ensures
        r@ == hint_line(hint_views(actions@)),
{
    let ghost all = hint_views(actions@);
    let mut line = Line::empty();
    let mut i: usize = 0;
    proof {
        assert(all.take(0) =~= Seq::empty());
    }
    while i < actions.len()
        invariant
            i <= actions@.len(),
            all == hint_views(actions@),
            line@ == hint_line(all.take(i as int)),
        decreases actions@.len() - i,
    {
        proof {
            assert(all.take(i + 1).drop_last() =~= all.take(i as int));
            assert(all.take(i + 1).last() == (actions@[i as int].0@, actions@[i as int].1@));
        }
        if i > 0 {
            line.push(Span::of("   ", Style::color(SemanticColor::Muted)));
        }
        let (key, label) = actions[i];
        line.push(Span::of(key, Style::color(SemanticColor::Focus).bold()));
        line.push(Span::styled(text::cat2(" ", label), Style::color(SemanticColor::Muted)));
        i = i + 1;
    }
    proof {
        assert(all.take(i as int) =~= all);
    }
    line
}

/// The first item that is listed, so that the chosen one is.
pub open spec fn list_start(selected: int, height: int) -> int {
    layout::rest_of(selected, layout::rest_of(height, 1))
}

/// The places of the items that are listed.
pub open spec fn list_range(selected: int, count: int, height: int) -> (int, int) {
    let from = layout::smaller(list_start(selected, height), count);
    (from, layout::smaller(from + height, count))
}

/// The chosen item is listed.
pub proof fn lists_show_the_chosen_item(selected: int, count: int, height: int)
    requires
        0 <= selected < count,
        height > 0,
    ensures
        list_range(selected, count, height).0 <= selected < list_range(selected, count, height).1,
{
}

fn listed_range(selected: usize, count: usize, height: usize) -> (r: (usize, usize))
    ensures
        (r.0 as int, r.1 as int) == list_range(selected as int, count as int, height as int),
        r.0 <= r.1 <= count,
{
    let wished: usize = selected.saturating_sub(height.saturating_sub(1));
    let from: usize = if wished < count {
        wished
    } else {
        count
    };
    let to: usize = if count - from < height {
        count
    } else {
        from + height
    };
    (from, to)
}

/// How a provider is spoken to, as the list has it.
pub open spec fn protocol_name(p: provider_overlay::ProviderView) -> Seq<char> {
    match p.kind {
        ConfiguredProviderKind::OpenAiCompatible => match p.protocol {
            Some(OpenAiProtocol::Responses) => "Responses"@,
            Some(OpenAiProtocol::ChatCompletions) => "Chat completions"@,
            None => "OpenAI-compatible"@,
        },
        ConfiguredProviderKind::Anthropic => "Anthropic"@,
    }
}

/// Where a provider is configured, as the list has it.
pub open spec fn source_name(source: ProviderConfigSource) -> Seq<char> {
    match source {
        ProviderConfigSource::User => "config"@,
        ProviderConfigSource::Managed => "managed"@,
    }
}

/// A provider's model, as the list has it.
pub open spec fn model_text(active: bool, model: Option<Seq<char>>) -> Seq<char> {
    match (active, model) {
        (true, Some(model)) => "active · "@ + model,
        (true, None) => "active"@,
        (false, Some(model)) => model,
        (false, None) => Seq::empty(),
    }
}

/// The line of a provider.
pub open spec fn provider_line(
    p: provider_overlay::ProviderView,
    active: bool,
    selected: bool,
) -> Seq<SpanView> {
    let base = overlay_render::row_style(selected);
    seq![
        ui::span(overlay_render::row_mark(selected), base),
        ui::span(text::padded(p.display_name, 22), base.bolded()),
        ui::span(text::padded(protocol_name(p), 19), base),
        ui::span(
            text::padded(source_name(p.source), 9),
            overlay_render::value_style(SemanticColor::ToolKeyword, selected),
        ),
        ui::span(
            model_text(active, p.model),
            overlay_render::value_style(SemanticColor::Success, selected),
        ),
    ]
}

fn provider_row(item: &ProviderListItem, active: bool, selected: bool) -> (r: Line)
    ensures
        r@ == provider_line(item@, active, selected),
{
    let base = overlay_render::selection_style(selected);
    let kind = match item.kind() {
        ConfiguredProviderKind::OpenAiCompatible => match item.protocol() {
            Some(OpenAiProtocol::Responses) => "Responses",
            Some(OpenAiProtocol::ChatCompletions) => "Chat completions",
            None => "OpenAI-compatible",
        },
        ConfiguredProviderKind::Anthropic => "Anthropic",
    };
    let source = match item.source() {
        ProviderConfigSource::User => "config",
        ProviderConfigSource::Managed => "managed",
    };
    let model = match (active, item.model()) {
        (true, Some(model)) => text::cat2("active · ", model),
        (true, None) => "active".to_owned(),
        (false, Some(model)) => model.to_owned(),
        (false, None) => {
            let none = String::new();
            proof {
                assert(none@ =~= Seq::empty());
            }
            none
        },
    };
    let mut line = Line::four(
        Span::of(overlay_render::mark(selected), base),
        Span::styled(text::pad_right(item.display_name(), 22), base.bold()),
        Span::styled(text::pad_right(kind, 19), base),
        Span::styled(
            text::pad_right(source, 9),
            Style::color(SemanticColor::ToolKeyword).patch(base),
        ),
    );
    line.push(Span::styled(model, Style::color(SemanticColor::Success).patch(base)));
    proof {
        assert(line@ =~= provider_line(item@, active, selected));
    }
    line
}

/// The line above the providers.
pub open spec fn manager_head() -> Seq<SpanView> {
    seq![
        ui::span("  "@, ui::plain_style()),
        ui::span(text::padded("Provider"@, 22), ui::colored(SemanticColor::Focus).bolded()),
        ui::span(text::padded("Protocol"@, 19), ui::colored(SemanticColor::Muted)),
        ui::span(text::padded("Source"@, 9), ui::colored(SemanticColor::Muted)),
        ui::span("Model"@, ui::colored(SemanticColor::Muted)),
    ]
}

/// What is said below the providers.
pub open spec fn manager_notice(m: provider_overlay::ManagerView) -> Seq<char> {
    match m.notice {
        Some(notice) => notice,
        None => if m.chosen() matches Some(p) && p.source == ProviderConfigSource::User {
            "config.toml provider · connection settings are read-only"@
        } else {
            ""@
        },
    }
}

/// The keys of the list: a provider of the user's own file is neither edited nor deleted.
pub open spec fn manager_hints(m: provider_overlay::ManagerView) -> Seq<HintView> {
    if m.chosen() matches Some(p) && p.source == ProviderConfigSource::Managed {
        seq![
            ("N"@, "Add"@),
            ("Enter"@, "Switch"@),
            ("M"@, "Models"@),
            ("E"@, "Edit"@),
            ("D"@, "Delete"@),
            ("Esc"@, "Back"@),
        ]
    } else {
        seq![("N"@, "Add"@), ("Enter"@, "Switch"@), ("M"@, "Models"@), ("Esc"@, "Back"@)]
    }
}

/// The lines of the providers in a range.
pub open spec fn provider_lines(m: provider_overlay::ManagerView, from: int, to: int) -> Seq<
    Seq<SpanView>,
> {
    Seq::new(
        (to - from) as nat,
        |k: int|
            provider_line(
                m.items[from + k],
                m.current_alias == Some(m.items[from + k].alias),
                from + k == m.selected,
            ),
    )
}

/// The rows for the providers.
pub open spec fn manager_rows(inner: Rect) -> int {
    layout::larger(layout::rest_of(inner.height as int, 2), 1)
}

/// The lines of the list.
pub open spec fn manager_lines(m: provider_overlay::ManagerView, inner: Rect) -> Seq<
    Seq<SpanView>,
> {
    let range = list_range(m.selected, m.items.len() as int, manager_rows(inner));
    let listed = seq![manager_head()] + provider_lines(m, range.0, range.1);
    let told = if m.items.len() == 0 {
        listed.push(seq![ui::span("No providers"@, ui::colored(SemanticColor::Muted))])
    } else {
        listed
    };
    told.push(Seq::empty()).push(
        seq![ui::span(manager_notice(m), ui::colored(SemanticColor::Muted))],
    ).push(hint_line(manager_hints(m)))
}

/// How high the list wants to be.
pub open spec fn manager_height(count: int) -> int {
    layout::larger(12, layout::smaller(count + 7, 22))
}

/// The list of providers as it is drawn.
pub open spec fn manager_drawing(m: provider_overlay::ManagerView, area: Rect) ->
    overlay_render::DrawingView {
    let region = overlay_render::centered_region(
        area,
        PROVIDER_OVERLAY_WIDTH,
        manager_height(m.items.len() as int) as u16,
    );
    let inner = overlay_render::inset_of(region, 2, 1);
    overlay_render::framed(region, " M  Providers "@, SemanticColor::Focus).with(
        overlay_render::pane(inner, manager_lines(m, inner)),
    )
}

fn manager_head_line() -> (r: Line)
    ensures
        r@ == manager_head(),
{
    let mut line = Line::four(
        Span::raw("  "),
        Span::styled(
            text::pad_right("Provider", 22),
            Style::color(SemanticColor::Focus).bold(),
        ),
        Span::styled(text::pad_right("Protocol", 19), Style::color(SemanticColor::Muted)),
        Span::styled(text::pad_right("Source", 9), Style::color(SemanticColor::Muted)),
    );
    line.push(Span::of("Model", Style::color(SemanticColor::Muted)));
    proof {
        assert(line@ =~= manager_head());
    }
    line
}

fn manager_hint_list(manager: &ProviderManagerOverlay) -> (r: Vec<Hint>)
    ensures
        hint_views(r@) == manager_hints(manager@),
{
    let mut hints: Vec<Hint> = Vec::new();
    hints.push(("N", "Add"));
    hints.push(("Enter", "Switch"));
    hints.push(("M", "Models"));
    if let Some(ProviderConfigSource::Managed) = manager.selected_source() {
        hints.push(("E", "Edit"));
        hints.push(("D", "Delete"));
    }
    hints.push(("Esc", "Back"));
    proof {
        assert(hint_views(hints@) =~= manager_hints(manager@));
    }
    hints
}

fn notice_of_manager(manager: &ProviderManagerOverlay) -> (r: String)
    ensures
        r@ == manager_notice(manager@),
{
    match manager.notice() {
        Some(notice) => notice.to_owned(),
        None => match manager.selected_source() {
            Some(ProviderConfigSource::User) =>
                "config.toml provider · connection settings are read-only".to_owned(),
            _ => "".to_owned(),
        },
    }
}

/// Whether an optional text is the given one.
fn is_alias(current: Option<&str>, alias: &str) -> (r: bool)
    ensures
        r == (provider_overlay::opt_str(current) == Some(alias@)),
{
    match current {
        Some(c) => text::same(c, alias),
        None => false,
    }
}

pub fn render_provider_manager(manager: &ProviderManagerOverlay, area: Rect) -> (r: OverlayDrawing)
    requires
        overlay_render::on_screen(area),
    ensures
        r@ == manager_drawing(manager@, area),
{
    let ghost m = manager@;
    let items = manager.items();
    let count = items.len();
    proof {
        assert(m.items.len() == count);
    }
    let height: u16 = if count < 5 {
        12
    } else if count > 15 {
        22
    } else {
        count as u16 + 7
    };
    let region = overlay_render::centered_rect(area, PROVIDER_OVERLAY_WIDTH, height);
    let mut drawing = OverlayDrawing::framed(region, " M  Providers ", SemanticColor::Focus);
    let inner = overlay_render::inset(region, 2, 1);
    let spare: u16 = inner.height.saturating_sub(2);
    let rows: usize = if spare > 1 {
        spare as usize
    } else {
        1
    };
    let selected = manager.selected();
    let (from, to) = listed_range(selected, count, rows);
    let mut lines: Vec<Line> = Vec::new();
    ui::push_line(&mut lines, manager_head_line());
    proof {
        assert(ui::line_views(lines@) =~= seq![manager_head()] + provider_lines(
            m,
            from as int,
            from as int,
        ));
    }
    let mut i: usize = from;
    while i < to
        invariant
            from <= i <= to <= items@.len(),
            m == manager@,
            selected == m.selected,
            provider_overlay::provider_views(items@) == m.items,
            ui::line_views(lines@) == seq![manager_head()] + provider_lines(
                m,
                from as int,
                i as int,
            ),
        decreases to - i,
    {
        proof {
            assert(m.items[i as int] == items@[i as int]@);
        }
        let active = is_alias(manager.current_alias(), items[i].alias());
        ui::push_line(&mut lines, provider_row(&items[i], active, i == selected));
        proof {
            assert(seq![manager_head()] + provider_lines(m, from as int, i + 1) =~= (
            seq![manager_head()] + provider_lines(m, from as int, i as int)).push(
                provider_line(
                    m.items[i as int],
                    m.current_alias == Some(m.items[i as int].alias),
                    i == m.selected,
                ),
            ));
        }
        i = i + 1;
    }
    if count == 0 {
        ui::push_line(
            &mut lines,
            Line::one(Span::of("No providers", Style::color(SemanticColor::Muted))),
        );
    }
    ui::push_line(&mut lines, Line::empty());
    ui::push_line(
        &mut lines,
        Line::one(Span::styled(notice_of_manager(manager), Style::color(SemanticColor::Muted))),
    );
    ui::push_line(&mut lines, action_hint_line(&manager_hint_list(manager)));
    drawing.add_lines(inner, lines);
    drawing
}

/// The list of a well-kept manager shows the chosen provider.
pub proof fn the_chosen_provider_is_listed(m: provider_overlay::ManagerView, inner: Rect)
    requires
        0 <= m.selected < m.items.len(),
    ensures
        ({
            let from = list_range(m.selected, m.items.len() as int, manager_rows(inner)).0;
            let line = 1 + m.selected - from;
            &&& 1 <= line < manager_lines(m, inner).len()
            &&& manager_lines(m, inner)[line] == provider_line(
                m.items[m.selected],
                m.current_alias == Some(m.items[m.selected].alias),
                true,
            )
        }),
{
    lists_show_the_chosen_item(m.selected, m.items.len() as int, manager_rows(inner));
}

/// What a field of the form is called.
pub open spec fn field_name(field: ProviderFormField) -> Seq<char> {
    match field {
        ProviderFormField::DisplayName => "Provider name"@,
        ProviderFormField::Alias => "Config alias"@,
        ProviderFormField::Kind => "API type"@,
        ProviderFormField::Protocol => "API protocol"@,
        ProviderFormField::BaseUrl => "Base URL"@,
        ProviderFormField::ApiKey => "API key"@,
        ProviderFormField::Model => "Initial model"@,
        ProviderFormField::ReasoningEffort => "Thinking mode"@,
        ProviderFormField::Save => "Save provider"@,
    }
}

pub fn form_field_label(field: ProviderFormField) -> (r: &'static str)
    ensures
        r@ == field_name(field),
{
    match field {
        ProviderFormField::DisplayName => "Provider name",
        ProviderFormField::Alias => "Config alias",
        ProviderFormField::Kind => "API type",
        ProviderFormField::Protocol => "API protocol",
        ProviderFormField::BaseUrl => "Base URL",
        ProviderFormField::ApiKey => "API key",
        ProviderFormField::Model => "Initial model",
        ProviderFormField::ReasoningEffort => "Thinking mode",
        ProviderFormField::Save => "Save provider",
    }
}

/// The place of a field in the form.
pub fn form_field_index(field: ProviderFormField) -> (r: usize)
    ensures
        r < provider_form::FORM_FIELD_COUNT,
        provider_form::form_field(r as int) == field,
        forall|i: int|
            0 <= i < provider_form::FORM_FIELD_COUNT && provider_form::form_field(i) == field
                ==> i == r,
{
    match field {
        ProviderFormField::DisplayName => 0,
        ProviderFormField::Alias => 1,
        ProviderFormField::Kind => 2,
        ProviderFormField::Protocol => 3,
        ProviderFormField::BaseUrl => 4,
        ProviderFormField::ApiKey => 5,
        ProviderFormField::Model => 6,
        ProviderFormField::ReasoningEffort => 7,
        ProviderFormField::Save => 8,
    }
}

/// A field's value as the form shows it; of the key, only its length.
pub open spec fn form_value(f: provider_form::FormView, field: ProviderFormField, width: int) ->
    Seq<char> {
    match field {
        ProviderFormField::Kind => match f.kind {
            ManagedProviderKind::OpenAiCompatible => "OpenAI-compatible"@,
            ManagedProviderKind::Anthropic => "Anthropic"@,
        },
        ProviderFormField::Protocol => match f.protocol() {
            Some(OpenAiProtocol::Responses) => "Responses"@,
            Some(OpenAiProtocol::ChatCompletions) => "Chat Completions"@,
            None => "Messages"@,
        },
        ProviderFormField::ApiKey => if f.fields[3].text.len() == 0 && f.editing() {
            "unchanged"@
        } else {
            text::repeated('*', f.fields[3].text.len())
        },
        _ => match provider_form::input_index(field) {
            Some(i) => input::shown_text(f.fields[i], width),
            None => Seq::empty(),
        },
    }
}

/// The line of a field.
pub open spec fn form_line(f: provider_form::FormView, field: ProviderFormField, width: int) ->
    Seq<SpanView> {
    let selected = f.row() == field;
    let base = overlay_render::row_style(selected);
    if field == ProviderFormField::Save {
        seq![
            ui::span(overlay_render::row_mark(selected), base),
            ui::span(
                "Save provider"@,
                overlay_render::value_style(SemanticColor::Status, selected),
            ),
        ]
    } else {
        seq![
            ui::span(overlay_render::row_mark(selected), base),
            ui::span(text::padded(field_name(field), 20), base),
            ui::span(
                form_value(f, field, width),
                overlay_render::value_style(
                    if field == ProviderFormField::Alias && f.editing() {
                        SemanticColor::Muted
                    } else {
                        SemanticColor::ToolKeyword
                    },
                    selected,
                ),
            ),
        ]
    }
}

fn field_value(form: &ProviderFormOverlay, field: ProviderFormField, width: usize) -> (r: String)
    requires
        form@.well_formed(),
    ensures
        r@ == form_value(form@, field, width as int),
{
    match field {
        ProviderFormField::Kind => match form.kind() {
            ManagedProviderKind::OpenAiCompatible => "OpenAI-compatible".to_owned(),
            ManagedProviderKind::Anthropic => "Anthropic".to_owned(),
        },
        ProviderFormField::Protocol => match form.protocol() {
            Some(OpenAiProtocol::Responses) => "Responses".to_owned(),
            Some(OpenAiProtocol::ChatCompletions) => "Chat Completions".to_owned(),
            None => "Messages".to_owned(),
        },
        ProviderFormField::ApiKey => form.masked_api_key(),
        _ => match form.field_viewport(field, width) {
            Some(viewport) => viewport.text,
            None => {
                let none = String::new();
                proof {
                    assert(none@ =~= Seq::empty());
                }
                none
            },
        },
    }
}

fn form_row(form: &ProviderFormOverlay, field: ProviderFormField, width: usize) -> (r: Line)
    requires
        form@.well_formed(),
    ensures
        r@ == form_line(form@, field, width as int),
{
    let selected = form.selected_field() == field;
    let base = overlay_render::selection_style(selected);
    let front = Span::of(overlay_render::mark(selected), base);
    if field == ProviderFormField::Save {
        return Line::two(
            front,
            Span::of("Save provider", Style::color(SemanticColor::Status).patch(base)),
        );
    }
    let color = if field == ProviderFormField::Alias && form.is_editing() {
        SemanticColor::Muted
    } else {
        SemanticColor::ToolKeyword
    };
    Line::three(
        front,
        Span::styled(text::pad_right(form_field_label(field), 20), base),
        Span::styled(field_value(form, field, width), Style::color(color).patch(base)),
    )
}

/// The keys of the form, by its chosen field.
pub open spec fn form_hints(field: ProviderFormField) -> Seq<HintView> {
    match field {
        ProviderFormField::Model => seq![
            ("Enter"@, "Models"@),
            ("Ctrl+S"@, "Save"@),
            ("Esc"@, "Back"@),
        ],
        ProviderFormField::ReasoningEffort => seq![
            ("Ctrl+Space"@, "Presets"@),
            ("Ctrl+S"@, "Save"@),
            ("Esc"@, "Back"@),
        ],
        ProviderFormField::Save => seq![("Enter"@, "Save"@), ("Esc"@, "Back"@)],
        _ => seq![
            ("Tab"@, "Next"@),
            ("Left/Right"@, "Change"@),
            ("Ctrl+S"@, "Save"@),
            ("Esc"@, "Back"@),
        ],
    }
}

fn form_hint_list(field: ProviderFormField) -> (r: Vec<Hint>)
    ensures
        hint_views(r@) == form_hints(field),
{
    let mut hints: Vec<Hint> = Vec::new();
    match field {
        ProviderFormField::Model => {
            hints.push(("Enter", "Models"));
            hints.push(("Ctrl+S", "Save"));
        },
        ProviderFormField::ReasoningEffort => {
            hints.push(("Ctrl+Space", "Presets"));
            hints.push(("Ctrl+S", "Save"));
        },
        ProviderFormField::Save => {
            hints.push(("Enter", "Save"));
        },
        _ => {
            hints.push(("Tab", "Next"));
            hints.push(("Left/Right", "Change"));
            hints.push(("Ctrl+S", "Save"));
        },
    }
    hints.push(("Esc", "Back"));
    proof {
        assert(hint_views(hints@) =~= form_hints(field));
    }
    hints
}

/// How wide a value can be.
pub open spec fn value_width(inner: Rect) -> int {
    layout::larger(layout::rest_of(inner.width as int, 24), 1)
}

/// The lines of the form's fields.
pub open spec fn field_lines(f: provider_form::FormView, width: int, n: int) -> Seq<Seq<SpanView>> {
    Seq::new(n as nat, |i: int| form_line(f, provider_form::form_field(i), width))
}

/// The lines of the form.
pub open spec fn form_lines(f: provider_form::FormView, inner: Rect) -> Seq<Seq<SpanView>> {
    field_lines(f, value_width(inner), provider_form::FORM_FIELD_COUNT as int).push(
        Seq::empty(),
    ).push(
        seq![
            ui::span(
                match f.notice {
                    Some(notice) => notice,
                    None => ""@,
                },
                ui::colored(SemanticColor::Muted),
            ),
        ],
    ).push(hint_line(form_hints(f.row())))
}

/// Whether the chosen field is typed into with the cursor shown.
pub open spec fn shows_cursor(f: provider_form::FormView) -> bool {
    &&& provider_form::input_index(f.row()) is Some
    &&& f.row() != ProviderFormField::ApiKey
    &&& !(f.row() == ProviderFormField::Alias && f.editing())
}

/// The cursor of the form.
pub open spec fn form_cursor(f: provider_form::FormView, inner: Rect) -> Option<
    layout::Position,
> {
    if shows_cursor(f) {
        Some(
            overlay_render::cursor_at(
                inner,
                22,
                input::shown_column(
                    f.fields[provider_form::input_index(f.row())->0],
                    value_width(inner),
                ),
                f.selected,
            ),
        )
    } else {
        None
    }
}

/// The form as it is drawn.
pub open spec fn form_drawing(f: provider_form::FormView, area: Rect) ->
    overlay_render::DrawingView {
    let region = overlay_render::centered_region(area, PROVIDER_OVERLAY_WIDTH, 20);
    let inner = overlay_render::inset_of(region, 2, 1);
    overlay_render::framed(
        region,
        if f.editing() {
            " M  Edit provider "@
        } else {
            " M  Add provider "@
        },
        SemanticColor::Focus,
    ).with(overlay_render::pane(inner, form_lines(f, inner))).with_cursor(form_cursor(f, inner))
}

pub fn render_provider_form(form: &ProviderFormOverlay, area: Rect) -> (r: OverlayDrawing)
    requires
        form@.well_formed(),
        overlay_render::on_screen(area),
    ensures
        r@ == form_drawing(form@, area),
{
    let region = overlay_render::centered_rect(area, PROVIDER_OVERLAY_WIDTH, 20);
    let mut drawing = OverlayDrawing::framed(region, form.title(), SemanticColor::Focus);
    let inner = overlay_render::inset(region, 2, 1);
    let spare: u16 = inner.width.saturating_sub(24);
    let width: usize = if spare > 1 {
        spare as usize
    } else {
        1
    };
    let fields = ProviderFormField::all();
    let mut lines: Vec<Line> = Vec::new();
    let mut i: usize = 0;
    proof {
        assert(ui::line_views(lines@) =~= field_lines(form@, width as int, 0));
    }
    while i < fields.len()
        invariant
            i <= fields@.len() == provider_form::FORM_FIELD_COUNT,
            form@.well_formed(),
            forall|k: int|
                0 <= k < provider_form::FORM_FIELD_COUNT ==> fields@[k]
                    == provider_form::form_field(k),
            ui::line_views(lines@) == field_lines(form@, width as int, i as int),
        decreases fields@.len() - i,
    {
        ui::push_line(&mut lines, form_row(form, fields[i], width));
        proof {
            assert(field_lines(form@, width as int, i + 1) =~= field_lines(
                form@,
                width as int,
                i as int,
            ).push(form_line(form@, provider_form::form_field(i as int), width as int)));
        }
        i = i + 1;
    }
    let notice = match form.notice() {
        Some(notice) => notice,
        None => "",
    };
    let selected = form.selected_field();
    ui::push_line(&mut lines, Line::empty());
    ui::push_line(&mut lines, Line::one(Span::of(notice, Style::color(SemanticColor::Muted))));
    ui::push_line(&mut lines, action_hint_line(&form_hint_list(selected)));
    drawing.add_lines(inner, lines);
    if selected != ProviderFormField::ApiKey && !(selected == ProviderFormField::Alias
        && form.is_editing()) {
        if let Some(viewport) = form.field_viewport(selected, width) {
            drawing.cursor = Some(
                overlay_render::pane_cursor(
                    inner,
                    22,
                    viewport.cursor_column,
                    form_field_index(selected),
                ),
            );
        }
    }
    drawing
}

/// What the form shows of the key goes by its length alone.
pub proof fn forms_hide_the_key(f: provider_form::FormView, key: input::InputView, area: Rect)
    requires
        f.well_formed(),
        key.text.len() == f.fields[3].text.len(),
    ensures
        form_drawing(f.with_field(3, key), area) == form_drawing(f, area),
{
    let g = f.with_field(3, key);
    let region = overlay_render::centered_region(area, PROVIDER_OVERLAY_WIDTH, 20);
    let inner = overlay_render::inset_of(region, 2, 1);
    let w = value_width(inner);
    assert forall|i: int| 0 <= i < provider_form::FORM_FIELD_COUNT implies form_line(
        g,
        #[trigger] provider_form::form_field(i),
        w,
    ) == form_line(f, provider_form::form_field(i), w) by {
        let field = provider_form::form_field(i);
        assert(form_value(g, field, w) == form_value(f, field, w));
    }
    assert(field_lines(g, w, 9) =~= field_lines(f, w, 9));
    assert(form_lines(g, inner) =~= form_lines(f, inner));
    assert(form_cursor(g, inner) == form_cursor(f, inner));
}

/// The name of something, and the alias of its provider.
pub open spec fn name_line(name: Seq<char>, alias: Seq<char>) -> Seq<SpanView> {
    seq![
        ui::span(name, ui::colored(SemanticColor::Focus).bolded()),
        ui::span("  "@ + alias, ui::colored(SemanticColor::Muted)),
    ]
}

fn name_row(name: &str, alias: &str) -> (r: Line)
    ensures
        r@ == name_line(name@, alias@),
{
    Line::two(
        Span::of(name, Style::color(SemanticColor::Focus).bold()),
        Span::styled(text::cat2("  ", alias), Style::color(SemanticColor::Muted)),
    )
}

/// The search in the list of models.
pub open spec fn search_line(query: input::InputView, width: int) -> Seq<SpanView> {
    seq![
        ui::span("M "@, ui::colored(SemanticColor::Focus)),
        if query.text.len() == 0 {
            ui::span("Search models"@, ui::colored(SemanticColor::Muted))
        } else {
            ui::span(input::shown_text(query, width), ui::colored(SemanticColor::Assistant))
        },
    ]
}

/// The line of a model.
pub open spec fn model_line(m: provider_overlay::ModelView, selected: bool) -> Seq<SpanView> {
    let base = overlay_render::row_style(selected);
    seq![
        ui::span(overlay_render::row_mark(selected), base),
        ui::span(text::padded(m.id, 44), base.bolded()),
        ui::span(
            match m.owner {
                Some(owner) => owner,
                None => ""@,
            },
            overlay_render::value_style(SemanticColor::ToolKeyword, selected),
        ),
    ]
}

fn model_row(model: &ModelListItem, selected: bool) -> (r: Line)
    ensures
        r@ == model_line(model@, selected),
{
    let base = overlay_render::selection_style(selected);
    let owner = match model.owner() {
        Some(owner) => owner,
        None => "",
    };
    Line::three(
        Span::of(overlay_render::mark(selected), base),
        Span::styled(text::pad_right(model.id(), 44), base.bold()),
        Span::of(owner, Style::color(SemanticColor::ToolKeyword).patch(base)),
    )
}

/// The lines of the models in a range.
pub open spec fn models_between(
    models: Seq<provider_overlay::ModelView>,
    selected: int,
    from: int,
    to: int,
) -> Seq<Seq<SpanView>> {
    Seq::new((to - from) as nat, |k: int| model_line(models[from + k], from + k == selected))
}

/// The models that are listed, or else the one that the query names.
pub open spec fn model_lines(
    p: provider_overlay::PickerView,
    name_is_valid: bool,
    height: int,
) -> Seq<Seq<SpanView>> {
    let range = list_range(p.selected, p.visible().len() as int, height);
    let listed = models_between(p.visible(), p.selected, range.0, range.1);
    match p.manual(name_is_valid) {
        Some(name) => if listed.len() == 0 {
            seq![
                seq![
                    ui::span(overlay_render::row_mark(true), overlay_render::row_style(true)),
                    ui::span(name, overlay_render::row_style(true).bolded()),
                ],
            ]
        } else {
            listed
        },
        None => listed,
    }
}

fn listed_models(picker: &ModelPickerOverlay, name_is_valid: bool, height: usize) -> (r: Vec<Line>)
    ensures
        ui::line_views(r@) == model_lines(picker@, name_is_valid, height as int),
{
    let ghost p = picker@;
    let visible = picker.visible_models();
    let selected = picker.selected();
    proof {
        assert(provider_overlay::lent_models(visible@).len() == visible@.len());
    }
    let (from, to) = listed_range(selected, visible.len(), height);
    let mut lines: Vec<Line> = Vec::new();
    let mut i: usize = from;
    proof {
        assert(ui::line_views(lines@) =~= models_between(
            p.visible(),
            p.selected,
            from as int,
            from as int,
        ));
    }
    while i < to
        invariant
            from <= i <= to <= visible@.len(),
            selected == p.selected,
            provider_overlay::lent_models(visible@) == p.visible(),
            ui::line_views(lines@) == models_between(
                p.visible(),
                p.selected,
                from as int,
                i as int,
            ),
        decreases to - i,
    {
        proof {
            assert(p.visible()[i as int] == visible@[i as int]@);
        }
        ui::push_line(&mut lines, model_row(visible[i], i == selected));
        proof {
            assert(models_between(p.visible(), p.selected, from as int, i + 1) =~= models_between(
                p.visible(),
                p.selected,
                from as int,
                i as int,
            ).push(model_line(p.visible()[i as int], i == p.selected)));
        }
        i = i + 1;
    }
    proof {
        assert(ui::line_views(lines@).len() == lines@.len());
    }
    if lines.len() == 0 {
        if let Some(name) = picker.manual_model(name_is_valid) {
            let line = Line::two(
                Span::of(overlay_render::mark(true), overlay_render::selection_style(true)),
                Span::styled(name, overlay_render::selection_style(true).bold()),
            );
            ui::push_line(&mut lines, line);
            proof {
                assert(ui::line_views(lines@) =~= model_lines(p, name_is_valid, height as int));
            }
        }
    }
    lines
}

/// A search that nothing answers is offered as a name, where it can be one.
pub proof fn unlisted_names_can_be_chosen(
    p: provider_overlay::PickerView,
    height: int,
)
    requires
        height > 0,
        p.visible().len() == 0,
        text::trimmed(p.query.text).len() > 0,
        forall|i: int|
            0 <= i < p.models.len() ==> (#[trigger] p.models[i]).id != text::trimmed(p.query.text),
    ensures
        model_lines(p, true, height).len() == 1,
        model_lines(p, true, height)[0][1].content == text::trimmed(p.query.text),
{
}

/// What is said below the models.
pub open spec fn picker_status(p: provider_overlay::PickerView) -> SpanView {
    ui::span(
        if p.loading {
            "Refreshing"@
        } else {
            match p.error {
                Some(error) => error,
                None => ""@,
            }
        },
        ui::colored(
            if p.error is Some {
                SemanticColor::Error
            } else {
                SemanticColor::Muted
            },
        ),
    )
}

/// The choice of a model, in its panes.
pub open spec fn picker_drawing(
    p: provider_overlay::PickerView,
    name_is_valid: bool,
    region: Rect,
    panes: Seq<Rect>,
) -> overlay_render::DrawingView {
    let width = layout::rest_of(panes[1].width as int, 2);
    overlay_render::framed(region, " M  Models "@, SemanticColor::Focus).with(
        overlay_render::pane(panes[0], seq![name_line(p.display_name, p.alias)]),
    ).with(overlay_render::pane(panes[1], seq![search_line(p.query, width)])).with(
        overlay_render::pane(
            panes[2],
            model_lines(p, name_is_valid, overlay_render::row_count(panes[2])),
        ),
    ).with(
        overlay_render::pane(
            panes[3],
            seq![
                seq![picker_status(p)],
                hint_line(seq![("Enter"@, "Use"@), ("F5"@, "Refresh"@), ("Esc"@, "Back"@)]),
            ],
        ),
    ).with_cursor(
        Some(overlay_render::cursor_at(panes[1], 2, input::shown_column(p.query, width), 0)),
    )
}

fn one_line(line: Line) -> (r: Vec<Line>)
    ensures
        ui::line_views(r@) == seq![line@],
{
    let mut lines: Vec<Line> = Vec::new();
    let ghost told = line@;
    lines.push(line);
    proof {
        assert(ui::line_views(lines@) =~= seq![told]);
    }
    lines
}

fn two_lines(a: Line, b: Line) -> (r: Vec<Line>)
    ensures
        ui::line_views(r@) == seq![a@, b@],
{
    let ghost told = seq![a@, b@];
    let mut lines: Vec<Line> = Vec::new();
    lines.push(a);
    lines.push(b);
    proof {
        assert(ui::line_views(lines@) =~= told);
    }
    lines
}

/// The choice of a model, when its inside was divided. `name_is_valid` says whether the model
/// layer accepts the trimmed query as a name.
pub fn picker_in_panes(
    picker: &ModelPickerOverlay,
    name_is_valid: bool,
    region: Rect,
    panes: &Vec<Rect>,
) -> (r: OverlayDrawing)
    requires
        picker@.well_formed(),
        panes@.len() == 4,
    ensures
        r@ == picker_drawing(picker@, name_is_valid, region, panes@),
{
    let mut drawing = OverlayDrawing::framed(region, " M  Models ", SemanticColor::Focus);
    drawing.add_lines(panes[0], one_line(name_row(picker.display_name(), picker.alias())));
    let query = picker.query_viewport(panes[1].width.saturating_sub(2) as usize);
    let wanted = if picker.query().is_empty() {
        Span::of("Search models", Style::color(SemanticColor::Muted))
    } else {
        Span::of(query.text.as_str(), Style::color(SemanticColor::Assistant))
    };
    drawing.add_lines(
        panes[1],
        one_line(Line::two(Span::of("M ", Style::color(SemanticColor::Focus)), wanted)),
    );
    drawing.add_lines(
        panes[2],
        listed_models(picker, name_is_valid, overlay_render::rows_in(panes[2])),
    );
    let status = if picker.is_loading() {
        "Refreshing"
    } else {
        match picker.error() {
            Some(error) => error,
            None => "",
        }
    };
    let color = if picker.error().is_some() {
        SemanticColor::Error
    } else {
        SemanticColor::Muted
    };
    let mut hints: Vec<Hint> = Vec::new();
    hints.push(("Enter", "Use"));
    hints.push(("F5", "Refresh"));
    hints.push(("Esc", "Back"));
    proof {
        assert(hint_views(hints@) =~= seq![
            ("Enter"@, "Use"@),
            ("F5"@, "Refresh"@),
            ("Esc"@, "Back"@),
        ]);
    }
    drawing.add_lines(
        panes[3],
        two_lines(
            Line::one(Span::of(status, Style::color(color))),
            action_hint_line(&hints),
        ),
    );
    drawing.cursor = Some(overlay_render::pane_cursor(panes[1], 2, query.cursor_column, 0));
    drawing
}

/// The panes of the choice of a model.
pub open spec fn picker_constraints() -> Seq<Constraint> {
    seq![
        Constraint::Length(1),
        Constraint::Length(2),
        Constraint::Min(1),
        Constraint::Length(2),
    ]
}

/// How high the panes of the choice of a model are asked to be.
pub fn picker_panes() -> (r: Vec<Constraint>)
    ensures
        r@ == picker_constraints(),
{
    let constraints = vec![
        Constraint::Length(1),
        Constraint::Length(2),
        Constraint::Min(1),
        Constraint::Length(2),
    ];
    proof {
        assert(constraints@ =~= picker_constraints());
    }
    constraints
}

/// Whether this is the choice of a model on a screen, however its inside is shared.
pub open spec fn picker_drawn(
    p: provider_overlay::PickerView,
    name_is_valid: bool,
    area: Rect,
    drawing: overlay_render::DrawingView,
) -> bool {
    let region = overlay_render::centered_region(area, PROVIDER_OVERLAY_WIDTH, 22);
    exists|panes: Seq<Rect>|
        {
            &&& #[trigger] layout::shared_out(
                panes,
                overlay_render::inset_of(region, 2, 1),
                true,
                picker_constraints(),
            )
            &&& drawing == picker_drawing(p, name_is_valid, region, panes)
        }
}

/// A choice of a model that has room is drawn in one way: a row for the provider, two for the
/// search, two for what is said below, and the rest for the models.
pub proof fn pickers_with_room_are_settled(
    p: provider_overlay::PickerView,
    name_is_valid: bool,
    area: Rect,
    drawing: overlay_render::DrawingView,
)
    requires
        picker_drawn(p, name_is_valid, area, drawing),
        overlay_render::on_screen(area),
        overlay_render::inset_of(
            overlay_render::centered_region(area, PROVIDER_OVERLAY_WIDTH, 22),
            2,
            1,
        ).height >= 6,
    ensures
        ({
            let region = overlay_render::centered_region(area, PROVIDER_OVERLAY_WIDTH, 22);
            let inner = overlay_render::inset_of(region, 2, 1);
            let heights = seq![1, 2, inner.height - 5, 2];
            drawing == picker_drawing(p, name_is_valid, region, layout::stacked(inner, heights))
        }),
{
    let region = overlay_render::centered_region(area, PROVIDER_OVERLAY_WIDTH, 22);
    let inner = overlay_render::inset_of(region, 2, 1);
    let panes = choose|panes: Seq<Rect>|
        {
            &&& #[trigger] layout::shared_out(panes, inner, true, picker_constraints())
            &&& drawing == picker_drawing(p, name_is_valid, region, panes)
        };
    reveal_with_fuel(layout::asked_in, 5);
    reveal_with_fuel(layout::height_in, 5);
    assert(layout::only_min(picker_constraints(), 2));
    layout::rows_with_room_are_stacked(
        panes,
        inner,
        picker_constraints(),
        2,
        seq![1, 2, inner.height - 5, 2],
    );
}

pub fn render_model_picker(picker: &ModelPickerOverlay, name_is_valid: bool, area: Rect) -> (r:
    OverlayDrawing)
    requires
        picker@.well_formed(),
        overlay_render::on_screen(area),
    ensures
        picker_drawn(picker@, name_is_valid, area, r@),
{
    let region = overlay_render::centered_rect(area, PROVIDER_OVERLAY_WIDTH, 22);
    let panes = layout::divide(overlay_render::inset(region, 2, 1), true, &picker_panes());
    picker_in_panes(picker, name_is_valid, region, &panes)
}

/// What the choices of an effort are called.
pub open spec fn effort_label(index: int) -> Seq<char> {
    if index < preferences::PRESET_COUNT {
        preferences::presets()[index]
    } else {
        "Custom"@
    }
}

/// The line of a choice.
pub open spec fn effort_line(index: int, selected: int) -> Seq<SpanView> {
    let base = overlay_render::row_style(index == selected);
    seq![
        ui::span(overlay_render::row_mark(index == selected), base),
        ui::span(effort_label(index), base.bolded()),
    ]
}

/// The lines of the first `n` choices.
pub open spec fn effort_lines(selected: int, n: int) -> Seq<Seq<SpanView>> {
    Seq::new(n as nat, |i: int| effort_line(i, selected))
}

/// The keys of the choice.
pub open spec fn effort_hints() -> Seq<SpanView> {
    hint_line(seq![("Enter"@, "Use"@), ("Esc"@, "Back"@)])
}

/// What is said below the editor of an effort.
pub open spec fn effort_status(p: reasoning_picker::EffortPickerView) -> SpanView {
    match p.error {
        Some(error) => ui::span(error, ui::colored(SemanticColor::Error)),
        None => ui::span(
            "Enter a provider-supported reasoning identifier"@,
            ui::colored(SemanticColor::Muted),
        ),
    }
}

/// The choice of an effort, in its panes.
pub open spec fn effort_drawing(
    p: reasoning_picker::EffortPickerView,
    region: Rect,
    panes: Seq<Rect>,
) -> overlay_render::DrawingView {
    let head = overlay_render::framed(region, " M  Thinking mode "@, SemanticColor::Focus).with(
        overlay_render::pane(
            panes[0],
            seq![
                name_line(p.model, p.alias),
                seq![
                    ui::span(
                        "Choose a thinking mode for this model"@,
                        ui::colored(SemanticColor::Muted),
                    ),
                ],
            ],
        ),
    );
    match p.custom_editor {
        Some(editor) => {
            let width = layout::rest_of(panes[1].width as int, 10);
            head.with(
                overlay_render::pane(
                    panes[1],
                    seq![
                        seq![
                            ui::span("Custom "@, ui::colored(SemanticColor::Focus)),
                            ui::span(
                                input::shown_text(editor, width),
                                ui::colored(SemanticColor::Assistant),
                            ),
                        ],
                    ],
                ),
            ).with(
                overlay_render::pane(panes[2], seq![seq![effort_status(p)], effort_hints()]),
            ).with_cursor(
                Some(
                    overlay_render::cursor_at(panes[1], 7, input::shown_column(editor, width), 0),
                ),
            )
        },
        None => head.with(
            overlay_render::pane(
                panes[1],
                effort_lines(p.selected, preferences::PRESET_COUNT + 1),
            ),
        ).with(overlay_render::pane(panes[2], seq![effort_hints()])),
    }
}

fn effort_hint_line() -> (r: Line)
    ensures
        r@ == effort_hints(),
{
    let mut hints: Vec<Hint> = Vec::new();
    hints.push(("Enter", "Use"));
    hints.push(("Esc", "Back"));
    proof {
        assert(hint_views(hints@) =~= seq![("Enter"@, "Use"@), ("Esc"@, "Back"@)]);
    }
    action_hint_line(&hints)
}

/// The choice of an effort, when its inside was divided.
pub fn effort_in_panes(picker: &ReasoningPickerOverlay, region: Rect, panes: &Vec<Rect>) -> (r:
    OverlayDrawing)
    requires
        picker@.well_formed(),
        panes@.len() == 3,
    ensures
        r@ == effort_drawing(picker@, region, panes@),
{
    let mut drawing = OverlayDrawing::framed(region, " M  Thinking mode ", SemanticColor::Focus);
    drawing.add_lines(
        panes[0],
        two_lines(
            name_row(picker.model(), picker.alias()),
            Line::one(
                Span::of(
                    "Choose a thinking mode for this model",
                    Style::color(SemanticColor::Muted),
                ),
            ),
        ),
    );
    if let Some(editor) = picker.custom_editor() {
        let viewport = editor.viewport(panes[1].width.saturating_sub(10) as usize);
        drawing.add_lines(
            panes[1],
            one_line(
                Line::two(
                    Span::of("Custom ", Style::color(SemanticColor::Focus)),
                    Span::of(viewport.text.as_str(), Style::color(SemanticColor::Assistant)),
                ),
            ),
        );
        let status = match picker.error() {
            Some(error) => Span::of(error, Style::color(SemanticColor::Error)),
            None => Span::of(
                "Enter a provider-supported reasoning identifier",
                Style::color(SemanticColor::Muted),
            ),
        };
        drawing.add_lines(panes[2], two_lines(Line::one(status), effort_hint_line()));
        drawing.cursor = Some(overlay_render::pane_cursor(panes[1], 7, viewport.cursor_column, 0));
        return drawing;
    }
    let selected = picker.selected();
    let count = picker.option_count();
    let mut lines: Vec<Line> = Vec::new();
    let mut i: usize = 0;
    proof {
        assert(ui::line_views(lines@) =~= effort_lines(selected as int, 0));
    }
    while i < count
        invariant
            i <= count,
            ui::line_views(lines@) == effort_lines(selected as int, i as int),
        decreases count - i,
    {
        let base = overlay_render::selection_style(i == selected);
        ui::push_line(
            &mut lines,
            Line::two(
                Span::of(overlay_render::mark(i == selected), base),
                Span::of(picker.option_label(i), base.bold()),
            ),
        );
        proof {
            assert(effort_lines(selected as int, i + 1) =~= effort_lines(
                selected as int,
                i as int,
            ).push(effort_line(i as int, selected as int)));
        }
        i = i + 1;
    }
    drawing.add_lines(panes[1], lines);
    drawing.add_lines(panes[2], one_line(effort_hint_line()));
    drawing
}

/// The panes of the choice of an effort.
pub open spec fn effort_constraints() -> Seq<Constraint> {
    seq![Constraint::Length(2), Constraint::Min(1), Constraint::Length(3)]
}

/// How high the panes of the choice of an effort are asked to be.
pub fn effort_panes() -> (r: Vec<Constraint>)
    ensures
        r@ == effort_constraints(),
{
    let constraints = vec![Constraint::Length(2), Constraint::Min(1), Constraint::Length(3)];
    proof {
        assert(constraints@ =~= effort_constraints());
    }
    constraints
}

/// Whether this is the choice of an effort on a screen, however its inside is shared.
pub open spec fn effort_drawn(
    p: reasoning_picker::EffortPickerView,
    area: Rect,
    drawing: overlay_render::DrawingView,
) -> bool {
    let region = overlay_render::centered_region(area, PROVIDER_OVERLAY_WIDTH, 20);
    exists|panes: Seq<Rect>|
        {
            &&& #[trigger] layout::shared_out(
                panes,
                overlay_render::inset_of(region, 2, 1),
                true,
                effort_constraints(),
            )
            &&& drawing == effort_drawing(p, region, panes)
        }
}

/// A choice of an effort that has room is drawn in one way: two rows for the model, three for
/// what is said below, and the rest for the choices.
pub proof fn efforts_with_room_are_settled(
    p: reasoning_picker::EffortPickerView,
    area: Rect,
    drawing: overlay_render::DrawingView,
)
    requires
        effort_drawn(p, area, drawing),
        overlay_render::on_screen(area),
        overlay_render::inset_of(
            overlay_render::centered_region(area, PROVIDER_OVERLAY_WIDTH, 20),
            2,
            1,
        ).height >= 6,
    ensures
        ({
            let region = overlay_render::centered_region(area, PROVIDER_OVERLAY_WIDTH, 20);
            let inner = overlay_render::inset_of(region, 2, 1);
            let heights = seq![2, inner.height - 5, 3];
            drawing == effort_drawing(p, region, layout::stacked(inner, heights))
        }),
{
    let region = overlay_render::centered_region(area, PROVIDER_OVERLAY_WIDTH, 20);
    let inner = overlay_render::inset_of(region, 2, 1);
    let panes = choose|panes: Seq<Rect>|
        {
            &&& #[trigger] layout::shared_out(panes, inner, true, effort_constraints())
            &&& drawing == effort_drawing(p, region, panes)
        };
    reveal_with_fuel(layout::asked_in, 4);
    reveal_with_fuel(layout::height_in, 4);
    assert(layout::only_min(effort_constraints(), 1));
    layout::rows_with_room_are_stacked(
        panes,
        inner,
        effort_constraints(),
        1,
        seq![2, inner.height - 5, 3],
    );
}

pub fn render_reasoning_picker(picker: &ReasoningPickerOverlay, area: Rect) -> (r: OverlayDrawing)
    requires
        picker@.well_formed(),
        overlay_render::on_screen(area),
    ensures
        effort_drawn(picker@, area, r@),
{
    let region = overlay_render::centered_rect(area, PROVIDER_OVERLAY_WIDTH, 20);
    let panes = layout::divide(overlay_render::inset(region, 2, 1), true, &effort_panes());
    effort_in_panes(picker, region, &panes)
}

} // verus!
