//! Code in colours.
use crate::preferences::CodeTheme;
use crate::text;
use crate::ui;
use crate::ui::{Line, Span, SpanView, Style, Tint};
use crate::words;
use syntect::easy::HighlightLines;
use syntect::highlighting::FontStyle;
use syntect::parsing::SyntaxSet;
use two_face::theme::EmbeddedThemeName;
use vstd::prelude::*;

verus! {

/// The most bytes of code that are coloured.
pub const MAX_HIGHLIGHT_BYTES: usize = 524_288;

/// The most lines of code that are coloured.
pub const MAX_HIGHLIGHT_LINES: usize = 10_000;

/// A set of syntaxes, as `syntect` has it.
#[verifier::external_type_specification]
#[verifier::external_body]
pub struct ExSyntaxSet(SyntaxSet);

/// A syntax: its name and the file extensions that tell it.
#[derive(Debug, PartialEq, Eq)]
pub struct SyntaxEntry {
    pub name: String,
    pub extensions: Vec<String>,
}

/// A syntax.
pub struct SyntaxView {
    pub name: Seq<char>,
    pub extensions: Seq<Seq<char>>,
}

impl View for SyntaxEntry {
    type V = SyntaxView;

    open spec fn view(&self) -> SyntaxView {
        SyntaxView { name: self.name@, extensions: text::views(self.extensions@) }
    }
}

pub open spec fn syntax_views(v: Seq<SyntaxEntry>) -> Seq<SyntaxView> {
    v.map_values(|s: SyntaxEntry| s@)
}

/// A stretch of a line, with the colour, its opacity and whether it is bold.
#[derive(Debug, PartialEq, Eq)]
pub struct ColoredText {
    pub text: String,
    pub red: u8,
    pub green: u8,
    pub blue: u8,
    pub opacity: u8,
    pub bold: bool,
}

/// A stretch of a line.
pub struct ColoredView {
    pub text: Seq<char>,
    pub red: u8,
    pub green: u8,
    pub blue: u8,
    pub opacity: u8,
    pub bold: bool,
}

impl View for ColoredText {
    type V = ColoredView;

    open spec fn view(&self) -> ColoredView {
        ColoredView {
            text: self.text@,
            red: self.red,
            green: self.green,
            blue: self.blue,
            opacity: self.opacity,
            bold: self.bold,
        }
    }
}

pub open spec fn stretch_views(v: Seq<ColoredText>) -> Seq<ColoredView> {
    v.map_values(|c: ColoredText| c@)
}

pub open spec fn colored_views(v: Seq<Vec<ColoredText>>) -> Seq<Seq<ColoredView>> {
    v.map_values(|l: Vec<ColoredText>| stretch_views(l@))
}

pub open spec fn opt_colored(o: Option<Vec<Vec<ColoredText>>>) -> Option<Seq<Seq<ColoredView>>> {
    match o {
        Some(v) => Some(colored_views(v@)),
        None => None,
    }
}

/// The syntaxes in a set, in their order.
pub uninterp spec fn held_syntaxes(set: SyntaxSet) -> Seq<SyntaxView>;

/// The lines of some code in the colours of a theme, by a syntax of a set; none where the
/// syntax fails on a line.
pub uninterp spec fn colored_lines(
    set: SyntaxSet,
    index: usize,
    theme: CodeTheme,
    lines: Seq<Seq<char>>,
) -> Option<Seq<Seq<ColoredView>>>;

/// `two_face::syntax::extra_newlines` reads the set that comes with the crate. Which syntaxes
/// it holds is left open.
#[verifier::external_body]
fn load_syntaxes() -> SyntaxSet {
    two_face::syntax::extra_newlines()
}

/// `SyntaxSet::syntaxes` lists the syntaxes of a set in their order.
#[verifier::external_body]
fn list_syntaxes(set: &SyntaxSet) -> (r: Vec<SyntaxEntry>)
    ensures
        syntax_views(r@) == held_syntaxes(*set),
{
    let entries = set.syntaxes().iter().map(|s| SyntaxEntry {
        name: s.name.clone(),
        extensions: s.file_extensions.clone(),
    });
    entries.collect()
}

/// `HighlightLines::highlight_line` on one line after the other, by the syntax at a place of
/// the set and with a theme of `two_face::theme::extra`: one list of stretches for each line,
/// which goes by the set, the syntax, the theme and the lines alone.
#[verifier::external_body]
fn color_lines(set: &SyntaxSet, index: usize, theme: CodeTheme, lines: &Vec<String>) -> (r: Option<
    Vec<Vec<ColoredText>>,
>)
    requires
        index < held_syntaxes(*set).len(),
    ensures
        opt_colored(r) == colored_lines(*set, index, theme, text::views(lines@)),
        r matches Some(v) ==> v@.len() == lines@.len(),
{
    let themes = two_face::theme::extra();
    let mut colors = HighlightLines::new(&set.syntaxes()[index], themes.get(match theme {
        CodeTheme::Dracula => EmbeddedThemeName::Dracula,
        CodeTheme::CatppuccinMocha => EmbeddedThemeName::CatppuccinMocha,
        CodeTheme::MonokaiBright => EmbeddedThemeName::MonokaiExtendedBright,
    }));
    lines.iter().map(|line| colors.highlight_line(line, set).ok().map(|ranges| {
        ranges.into_iter().map(|(style, text)| ColoredText {
            text: text.to_owned(), red: style.foreground.r, green: style.foreground.g,
            blue: style.foreground.b, opacity: style.foreground.a,
            bold: style.font_style.contains(FontStyle::BOLD),
        }).collect()
    })).collect()
}

/// The name under which the syntaxes know a language.
pub open spec fn patched(lang: Seq<char>) -> Seq<char> {
    if lang == "csharp"@ || lang == "c-sharp"@ {
        "c#"@
    } else if lang == "golang"@ {
        "go"@
    } else if lang == "python3"@ {
        "python"@
    } else if lang == "shell"@ {
        "bash"@
    } else {
        lang
    }
}

fn patched_name(lang: &str) -> (r: String)
    ensures
        r@ == patched(lang@),
{
    if text::same(lang, "csharp") || text::same(lang, "c-sharp") {
        "c#".to_owned()
    } else if text::same(lang, "golang") {
        "go".to_owned()
    } else if text::same(lang, "python3") {
        "python".to_owned()
    } else if text::same(lang, "shell") {
        "bash".to_owned()
    } else {
        lang.to_owned()
    }
}

/// How a syntax is looked for.
#[derive(Debug, Clone, Copy, PartialEq, Eq, Structural)]
pub enum Lookup {
    /// By a file extension, in capitals or small letters.
    Extension,
    /// By its name, letter for letter.
    Name,
    /// By its name, in capitals or small letters.
    LooseName,
}

/// Whether a syntax answers to a word.
pub open spec fn answers(s: SyntaxView, how: Lookup, word: Seq<char>) -> bool {
    match how {
        Lookup::Extension => exists|k: int|
            0 <= k < s.extensions.len() && text::lower(#[trigger] s.extensions[k]) == text::lower(
                word,
            ),
        Lookup::Name => s.name == word,
        Lookup::LooseName => text::lower(s.name) == text::lower(word),
    }
}

/// The last of the first `n` syntaxes that answers to a word.
pub open spec fn last_answer(v: Seq<SyntaxView>, how: Lookup, word: Seq<char>, n: int) -> Option<
    int,
>
    decreases n,
{
    if n <= 0 || n > v.len() {
        None
    } else if answers(v[n - 1], how, word) {
        Some(n - 1)
    } else {
        last_answer(v, how, word, n - 1)
    }
}

/// The first syntax from `i` on that answers to a word.
pub open spec fn first_answer(v: Seq<SyntaxView>, how: Lookup, word: Seq<char>, i: int) -> Option<
    int,
>
    decreases v.len() - i,
{
    if i < 0 || i >= v.len() {
        None
    } else if answers(v[i], how, word) {
        Some(i)
    } else {
        first_answer(v, how, word, i + 1)
    }
}

pub open spec fn or(a: Option<int>, b: Option<int>) -> Option<int> {
    if a is Some {
        a
    } else {
        b
    }
}

/// The syntax of a language: by extension and then loosely by name, letter for letter, loosely
/// from the front, and at last by the extension as it was given.
pub open spec fn syntax_for(v: Seq<SyntaxView>, lang: Seq<char>) -> Option<int> {
    let word = patched(lang);
    let n = v.len() as int;
    or(
        last_answer(v, Lookup::Extension, word, n),
        or(
            last_answer(v, Lookup::LooseName, word, n),
            or(
                last_answer(v, Lookup::Name, word, n),
                or(
                    first_answer(v, Lookup::LooseName, word, 0),
                    last_answer(v, Lookup::Extension, lang, n),
                ),
            ),
        ),
    )
}

fn syntax_answers(s: &SyntaxEntry, how: Lookup, word: &str) -> (r: bool)
    ensures
        r == answers(s@, how, word@),
{
    match how {
        Lookup::Name => text::same(s.name.as_str(), word),
        Lookup::LooseName => text::same(
            text::to_lower(s.name.as_str()).as_str(),
            text::to_lower(word).as_str(),
        ),
        Lookup::Extension => {
            let small = text::to_lower(word);
            let mut k: usize = 0;
            while k < s.extensions.len()
                invariant
                    k <= s.extensions@.len(),
                    how == Lookup::Extension,
                    small@ == text::lower(word@),
                    forall|j: int|
                        0 <= j < k ==> text::lower(#[trigger] s@.extensions[j]) != text::lower(
                            word@,
                        ),
                decreases s.extensions@.len() - k,
            {
                proof {
                    assert(s@.extensions[k as int] == s.extensions@[k as int]@);
                    assert(s@.extensions.len() == s.extensions@.len());
                }
                if text::same(
                    text::to_lower(s.extensions[k].as_str()).as_str(),
                    small.as_str(),
                ) {
                    return true;
                }
                k = k + 1;
            }
            proof {
                assert(s@.extensions.len() == s.extensions@.len());
            }
            false
        },
    }
}

pub open spec fn place(o: Option<usize>) -> Option<int> {
    match o {
        Some(i) => Some(i as int),
        None => None,
    }
}

fn find_last_syntax(v: &Vec<SyntaxEntry>, how: Lookup, word: &str) -> (r: Option<usize>)
    ensures
        place(r) == last_answer(syntax_views(v@), how, word@, v@.len() as int),
        r matches Some(i) ==> i < v@.len(),
{
    let ghost all = syntax_views(v@);
    let mut n: usize = v.len();
    while n > 0
        invariant
            n <= v@.len(),
            all == syntax_views(v@),
            last_answer(all, how, word@, v@.len() as int) == last_answer(
                all,
                how,
                word@,
                n as int,
            ),
        decreases n,
    {
        proof {
            assert(all[n - 1] == v@[n - 1]@);
        }
        if syntax_answers(&v[n - 1], how, word) {
            return Some(n - 1);
        }
        n = n - 1;
    }
    None
}

fn find_first_syntax(v: &Vec<SyntaxEntry>, how: Lookup, word: &str) -> (r: Option<usize>)
    ensures
        place(r) == first_answer(syntax_views(v@), how, word@, 0),
        r matches Some(i) ==> i < v@.len(),
{
    let ghost all = syntax_views(v@);
    let mut i: usize = 0;
    while i < v.len()
        invariant
            i <= v@.len(),
            all == syntax_views(v@),
            first_answer(all, how, word@, 0) == first_answer(all, how, word@, i as int),
        decreases v@.len() - i,
    {
        proof {
            assert(all[i as int] == v@[i as int]@);
        }
        if syntax_answers(&v[i], how, word) {
            return Some(i);
        }
        i = i + 1;
    }
    None
}

pub fn find_syntax(v: &Vec<SyntaxEntry>, lang: &str) -> (r: Option<usize>)
    ensures
        place(r) == syntax_for(syntax_views(v@), lang@),
        r matches Some(i) ==> i < v@.len(),
{
    let word = patched_name(lang);
    let found = find_last_syntax(v, Lookup::Extension, word.as_str());
    if found.is_some() {
        return found;
    }
    let found = find_last_syntax(v, Lookup::LooseName, word.as_str());
    if found.is_some() {
        return found;
    }
    let found = find_last_syntax(v, Lookup::Name, word.as_str());
    if found.is_some() {
        return found;
    }
    let found = find_first_syntax(v, Lookup::LooseName, word.as_str());
    if found.is_some() {
        return found;
    }
    find_last_syntax(v, Lookup::Extension, lang)
}

/// A colour of the terminal's palette.
pub open spec fn palette(index: u8) -> Tint {
    if index == 0 {
        Tint::Black
    } else if index == 1 {
        Tint::Red
    } else if index == 2 {
        Tint::Green
    } else if index == 3 {
        Tint::Yellow
    } else if index == 4 {
        Tint::Blue
    } else if index == 5 {
        Tint::Magenta
    } else if index == 6 {
        Tint::Cyan
    } else if index == 7 {
        Tint::Gray
    } else {
        Tint::Indexed(index)
    }
}

pub fn ansi_palette_color(index: u8) -> (r: Tint)
    ensures
        r == palette(index),
{
    match index {
        0 => Tint::Black,
        1 => Tint::Red,
        2 => Tint::Green,
        3 => Tint::Yellow,
        4 => Tint::Blue,
        5 => Tint::Magenta,
        6 => Tint::Cyan,
        7 => Tint::Gray,
        other => Tint::Indexed(other),
    }
}

/// The colour of a stretch: an opacity of nought stands for the terminal's palette, one of one
/// for no colour.
pub open spec fn tint_of(c: ColoredView) -> Option<Tint> {
    if c.opacity == 0 {
        Some(palette(c.red))
    } else if c.opacity == 1 {
        None
    } else {
        Some(Tint::Rgb(c.red, c.green, c.blue))
    }
}

pub fn convert_color(c: &ColoredText) -> (r: Option<Tint>)
    ensures
        r == tint_of(c@),
{
    match c.opacity {
        0 => Some(ansi_palette_color(c.red)),
        1 => None,
        _ => Some(Tint::Rgb(c.red, c.green, c.blue)),
    }
}

/// The style of a stretch.
pub open spec fn style_of(c: ColoredView) -> Style {
    Style { fg: tint_of(c), bold: c.bold, ..ui::plain_style() }
}

pub fn convert_style(c: &ColoredText) -> (r: Style)
    ensures
        r == style_of(c@),
{
    let mut r = Style::plain();
    r.fg = convert_color(c);
    r.bold = c.bold;
    r
}

/// A text without the line breaks at its end.
pub open spec fn without_breaks(s: Seq<char>) -> Seq<char>
    decreases s.len(),
{
    if s.len() > 0 && (s.last() == '\n' || s.last() == '\r') {
        without_breaks(s.drop_last())
    } else {
        s
    }
}

fn drop_breaks(s: &str) -> (r: String)
    ensures
        r@ == without_breaks(s@),
{
    let v = text::chars_of(s);
    let mut end: usize = v.len();
    proof {
        assert(s@.take(end as int) =~= s@);
    }
    while end > 0 && (v[end - 1] == '\n' || v[end - 1] == '\r')
        invariant
            v@ == s@,
            end <= v@.len(),
            without_breaks(s@) == without_breaks(s@.take(end as int)),
        decreases end,
    {
        proof {
            assert(s@.take(end as int).drop_last() =~= s@.take(end - 1));
        }
        end = end - 1;
    }
    proof {
        let cut = s@.take(end as int);
        if end > 0 {
            assert(cut.last() == v@[end - 1]);
        }
        assert(v@.subrange(0, end as int) =~= cut);
    }
    text::text_of(&v, 0, end)
}

/// The stretches of a line that hold something beside its end.
pub open spec fn kept_stretches(line: Seq<ColoredView>) -> Seq<SpanView>
    decreases line.len(),
{
    if line.len() == 0 {
        Seq::empty()
    } else {
        let before = kept_stretches(line.drop_last());
        let shown = without_breaks(line.last().text);
        if shown.len() == 0 {
            before
        } else {
            before.push(ui::span(shown, style_of(line.last())))
        }
    }
}

/// A line of coloured code; an empty stretch where nothing else is left.
pub open spec fn code_line(line: Seq<ColoredView>) -> Seq<SpanView> {
    let kept = kept_stretches(line);
    if kept.len() == 0 {
        seq![ui::span(Seq::empty(), ui::plain_style())]
    } else {
        kept
    }
}

fn colored_line(line: &Vec<ColoredText>) -> (r: Line)
    ensures
        r@ == code_line(stretch_views(line@)),
{
    let ghost all = stretch_views(line@);
    let mut r = Line::empty();
    let mut i: usize = 0;
    proof {
        assert(all.take(0) =~= Seq::empty());
    }
    while i < line.len()
        invariant
            i <= line@.len(),
            all == stretch_views(line@),
            r@ == kept_stretches(all.take(i as int)),
        decreases line@.len() - i,
    {
        proof {
            assert(all.take(i + 1).drop_last() =~= all.take(i as int));
            assert(all.take(i + 1).last() == line@[i as int]@);
        }
        let shown = drop_breaks(line[i].text.as_str());
        if !shown.as_str().is_empty() {
            r.push(Span::styled(shown, convert_style(&line[i])));
        }
        i = i + 1;
    }
    proof {
        assert(all.take(i as int) =~= all);
        assert(r@.len() == r.spans@.len());
    }
    if r.spans.len() == 0 {
        let none = String::new();
        proof {
            assert(none@ =~= Seq::empty());
        }
        r = Line::one(Span::styled(none, Style::plain()));
    }
    r
}

/// A line of plain text; an empty one has no stretches.
pub open spec fn raw_line(s: Seq<char>) -> Seq<SpanView> {
    if s.len() == 0 {
        Seq::empty()
    } else {
        seq![ui::span(s, ui::plain_style())]
    }
}

/// The lines of code without colours; one empty line where there are none.
pub open spec fn plain_lines(code: Seq<char>) -> Seq<Seq<SpanView>> {
    let lines = words::lines(code).map_values(|l: Seq<char>| raw_line(l));
    if lines.len() == 0 {
        seq![Seq::empty()]
    } else {
        lines
    }
}

pub fn plain_code_lines(code: &str) -> (r: Vec<Line>)
    ensures
        ui::line_views(r@) == plain_lines(code@),
{
    let lines = words::lines_of(code);
    let ghost all = words::lines(code@);
    let mut r: Vec<Line> = Vec::new();
    let mut i: usize = 0;
    while i < lines.len()
        invariant
            i <= lines@.len(),
            text::views(lines@) == all,
            r@.len() == i,
            forall|k: int| 0 <= k < i ==> (#[trigger] r@[k])@ == raw_line(all[k]),
        decreases lines@.len() - i,
    {
        proof {
            assert(all[i as int] == lines@[i as int]@);
        }
        if lines[i].as_str().is_empty() {
            r.push(Line::empty());
        } else {
            r.push(Line::one(Span::raw(lines[i].as_str())));
        }
        i = i + 1;
    }
    proof {
        assert(all.len() == lines@.len());
    }
    if r.len() == 0 {
        r.push(Line::empty());
    }
    proof {
        assert(ui::line_views(r@) =~= plain_lines(code@));
    }
    r
}

/// The lines of some code, with the line breaks at their ends.
pub open spec fn ended_lines(code: Seq<char>) -> Seq<Seq<char>> {
    let parts = text::split(code, '\n');
    let ended = parts.drop_last().map_values(|p: Seq<char>| p.push('\n'));
    if parts.last().len() == 0 {
        ended
    } else {
        ended.push(parts.last())
    }
}

fn lines_with_endings(code: &str) -> (r: Vec<String>)
    ensures
        text::views(r@) == ended_lines(code@),
{
    let parts = text::split_text(code, '\n');
    let ghost all = text::views(parts@);
    let last: usize = parts.len() - 1;
    let mut r: Vec<String> = Vec::new();
    let mut i: usize = 0;
    while i < last
        invariant
            i <= last == parts@.len() - 1,
            text::views(parts@) == all,
            r@.len() == i,
            forall|k: int| 0 <= k < i ==> (#[trigger] r@[k])@ == all[k].push('\n'),
        decreases last - i,
    {
        let mut line = parts[i].clone();
        proof {
            assert(all[i as int] == parts@[i as int]@);
        }
        line.push('\n');
        r.push(line);
        i = i + 1;
    }
    proof {
        assert(all[last as int] == parts@[last as int]@);
        assert(all.len() == parts@.len());
    }
    if !parts[last].as_str().is_empty() {
        r.push(parts[last].clone());
    }
    proof {
        assert(text::views(r@) =~= ended_lines(code@));
    }
    r
}

/// Whether code is of a size that is coloured.
pub open spec fn is_colored(code: Seq<char>) -> bool {
    &&& code.len() > 0
    &&& text::byte_len(code) <= MAX_HIGHLIGHT_BYTES
    &&& words::lines(code).len() <= MAX_HIGHLIGHT_LINES
}

/// Code in the colours that were found for it, or without any.
pub open spec fn shown_code(code: Seq<char>, colored: Option<Seq<Seq<ColoredView>>>) -> Seq<
    Seq<SpanView>,
> {
    match colored {
        Some(lines) => lines.map_values(|l: Seq<ColoredView>| code_line(l)),
        None => plain_lines(code),
    }
}

/// The lines of code, when it was coloured or could not be.
pub fn code_lines(code: &str, colored: Option<Vec<Vec<ColoredText>>>) -> (r: Vec<Line>)
    ensures
        ui::line_views(r@) == shown_code(code@, opt_colored(colored)),
{
    match colored {
        Some(lines) => {
            let ghost all = colored_views(lines@);
            let mut r: Vec<Line> = Vec::new();
            let mut i: usize = 0;
            while i < lines.len()
                invariant
                    i <= lines@.len(),
                    all == colored_views(lines@),
                    r@.len() == i,
                    forall|k: int| 0 <= k < i ==> (#[trigger] r@[k])@ == code_line(all[k]),
                decreases lines@.len() - i,
            {
                proof {
                    assert(all[i as int] == stretch_views(lines@[i as int]@));
                }
                r.push(colored_line(&lines[i]));
                i = i + 1;
            }
            proof {
                assert(ui::line_views(r@) =~= all.map_values(
                    |l: Seq<ColoredView>| code_line(l),
                ));
            }
            r
        },
        None => plain_code_lines(code),
    }
}

/// Colours code, with the syntaxes that it knows.
pub struct CodeHighlighter {
    syntaxes: SyntaxSet,
}

/// The colours of code in a language, if it has any.
pub open spec fn colors_of(
    set: SyntaxSet,
    code: Seq<char>,
    lang: Seq<char>,
    theme: CodeTheme,
) -> Option<Seq<Seq<ColoredView>>> {
    if is_colored(code) {
        match syntax_for(held_syntaxes(set), lang) {
            Some(i) => colored_lines(set, i as usize, theme, ended_lines(code)),
            None => None,
        }
    } else {
        None
    }
}

impl CodeHighlighter {
    pub closed spec fn set(self) -> SyntaxSet {
        self.syntaxes
    }

    /// A highlighter with the syntaxes that come with the program.
    pub fn new() -> CodeHighlighter {
        CodeHighlighter { syntaxes: load_syntaxes() }
    }

    pub fn highlight(&self, code: &str, lang: &str, theme: CodeTheme) -> (r: Option<
        Vec<Vec<ColoredText>>,
    >)
        ensures
            opt_colored(r) == colors_of(self.set(), code@, lang@, theme),
    {
        if code.is_empty() || text::len_in_bytes(code) > MAX_HIGHLIGHT_BYTES {
            return None;
        }
        let count = words::lines_of(code);
        proof {
            assert(text::views(count@).len() == count@.len());
        }
        if count.len() > MAX_HIGHLIGHT_LINES {
            return None;
        }
        let known = list_syntaxes(&self.syntaxes);
        proof {
            assert(syntax_views(known@).len() == known@.len());
        }
        match find_syntax(&known, lang) {
            Some(i) => color_lines(&self.syntaxes, i, theme, &lines_with_endings(code)),
            None => None,
        }
    }

    /// The lines of code in a language.
    pub fn lines(&self, code: &str, lang: &str, theme: CodeTheme) -> (r: Vec<Line>)
        ensures
            ui::line_views(r@) == shown_code(code@, colors_of(self.set(), code@, lang@, theme)),
    {
        code_lines(code, self.highlight(code, lang, theme))
    }
}

/// The lines of code in a language, with the syntaxes that come with the program.
pub fn highlight_code_to_lines(code: &str, lang: &str, theme: CodeTheme) -> (r: Vec<Line>)
    ensures
        !is_colored(code@) ==> ui::line_views(r@) == plain_lines(code@),
        exists|set: SyntaxSet|
            ui::line_views(r@) == shown_code(code@, #[trigger] colors_of(set, code@, lang@, theme)),
{
    let highlighter = CodeHighlighter::new();
    let r = highlighter.lines(code, lang, theme);
    proof {
        assert(ui::line_views(r@) == shown_code(
            code@,
            colors_of(highlighter.set(), code@, lang@, theme),
        ));
    }
    r
}

/// Code that is not coloured keeps its lines, but for their ends.
pub proof fn plain_code_keeps_its_lines(code: Seq<char>, i: int)
    requires
        0 <= i < words::lines(code).len(),
    ensures
        plain_lines(code).len() == words::lines(code).len(),
        ui::line_text(plain_lines(code)[i]) == words::lines(code)[i],
{
    reveal_with_fuel(ui::line_text, 2);
    let line = words::lines(code)[i];
    assert(plain_lines(code)[i] == raw_line(line));
    if line.len() > 0 {
        assert(raw_line(line).drop_last() =~= Seq::empty());
        assert(ui::line_text(raw_line(line)) =~= line);
    } else {
        assert(ui::line_text(raw_line(line)) =~= line);
    }
}

proof fn lemma_last_answer(v: Seq<SyntaxView>, how: Lookup, word: Seq<char>, n: int)
    requires
        0 <= n <= v.len(),
    ensures
        last_answer(v, how, word, n) matches Some(k) ==> 0 <= k < n && answers(v[k], how, word) && (
        forall|j: int| k < j < n ==> !answers(#[trigger] v[j], how, word)),
        last_answer(v, how, word, n) is None ==> (forall|j: int|
            0 <= j < n ==> !answers(#[trigger] v[j], how, word)),
    decreases n,
{
    if n > 0 && !answers(v[n - 1], how, word) {
        lemma_last_answer(v, how, word, n - 1);
    }
}

proof fn lemma_first_answer(v: Seq<SyntaxView>, how: Lookup, word: Seq<char>, i: int)
    requires
        0 <= i,
    ensures
        first_answer(v, how, word, i) matches Some(k) ==> i <= k < v.len() && answers(
            v[k],
            how,
            word,
        ),
    decreases v.len() - i,
{
    if i < v.len() && !answers(v[i], how, word) {
        lemma_first_answer(v, how, word, i + 1);
    }
}

/// The syntax that is found for a language has its word among its extensions or is named so,
/// however the letters are written; a syntax with the word as an extension is found before one
/// that is named so, the last of them; where none is found none answers in any way.
pub proof fn syntaxes_answer_to_their_language(v: Seq<SyntaxView>, lang: Seq<char>)
    ensures
        syntax_for(v, lang) matches Some(k) ==> 0 <= k < v.len() && (answers(
            v[k],
            Lookup::Extension,
            patched(lang),
        ) || answers(v[k], Lookup::LooseName, patched(lang)) || answers(
            v[k],
            Lookup::Name,
            patched(lang),
        ) || answers(v[k], Lookup::Extension, lang)),
        (exists|j: int|
            0 <= j < v.len() && answers(#[trigger] v[j], Lookup::Extension, patched(lang))) ==> (
        syntax_for(v, lang) matches Some(k) && answers(v[k], Lookup::Extension, patched(lang))
            && (forall|j: int|
            k < j < v.len() ==> !answers(#[trigger] v[j], Lookup::Extension, patched(lang)))),
        syntax_for(v, lang) is None ==> (forall|j: int|
            0 <= j < v.len() ==> !answers(#[trigger] v[j], Lookup::Extension, lang) && !answers(
                v[j],
                Lookup::LooseName,
                patched(lang),
            )),
{
    let word = patched(lang);
    let n = v.len() as int;
    lemma_last_answer(v, Lookup::Extension, word, n);
    lemma_last_answer(v, Lookup::LooseName, word, n);
    lemma_last_answer(v, Lookup::Name, word, n);
    lemma_last_answer(v, Lookup::Extension, lang, n);
    lemma_first_answer(v, Lookup::LooseName, word, 0);
}

} // verus!
