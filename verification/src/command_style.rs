//! Colors for the words of a shell command. This is for the eye alone: nothing here decides
//! what is run.
use crate::text;
use crate::ui;
use crate::ui::{SemanticColor, Span, SpanView, Style};
use vstd::prelude::*;

verus! {

/// The length of the operator that stands at a place, if one does. Of two, the longer counts.
pub open spec fn operator_len(s: Seq<char>, i: int) -> Option<nat> {
    if text::stands_at(s, "2>&1"@, i) {
        Some(4)
    } else if text::stands_at(s, "2>>"@, i) {
        Some(3)
    } else if text::stands_at(s, "2>"@, i) {
        Some(2)
    } else if text::stands_at(s, "&&"@, i) {
        Some(2)
    } else if text::stands_at(s, "||"@, i) {
        Some(2)
    } else if text::stands_at(s, ">>"@, i) {
        Some(2)
    } else if text::stands_at(s, "<<"@, i) {
        Some(2)
    } else if text::stands_at(s, ">"@, i) {
        Some(1)
    } else if text::stands_at(s, "<"@, i) {
        Some(1)
    } else if text::stands_at(s, "|"@, i) {
        Some(1)
    } else if text::stands_at(s, ";"@, i) {
        Some(1)
    } else if text::stands_at(s, "&"@, i) {
        Some(1)
    } else {
        None
    }
}

proof fn lemma_operator_fits(s: Seq<char>, i: int)
    requires
        0 <= i <= s.len(),
    ensures
        operator_len(s, i) matches Some(n) ==> n > 0 && i + n <= s.len(),
{
    reveal_strlit("2>&1");
    reveal_strlit("2>>");
    reveal_strlit("2>");
    reveal_strlit("&&");
    reveal_strlit("||");
    reveal_strlit(">>");
    reveal_strlit("<<");
    reveal_strlit(">");
    reveal_strlit("<");
    reveal_strlit("|");
    reveal_strlit(";");
    reveal_strlit("&");
}

fn at(v: &Vec<char>, needle: &str, i: usize) -> (r: bool)
    requires
        i <= v@.len(),
    ensures
        r == text::stands_at(v@, needle@, i as int),
{
    text::stands_at_chars(v, &text::chars_of(needle), i)
}

fn operator_at(v: &Vec<char>, i: usize) -> (r: Option<usize>)
    requires
        i <= v@.len(),
    ensures
        (match r {
            Some(n) => Some(n as nat),
            None => None,
        }) == operator_len(v@, i as int),
{
    if at(v, "2>&1", i) {
        Some(4)
    } else if at(v, "2>>", i) {
        Some(3)
    } else if at(v, "2>", i) || at(v, "&&", i) || at(v, "||", i) || at(v, ">>", i) || at(
        v,
        "<<",
        i,
    ) {
        Some(2)
    } else if at(v, ">", i) || at(v, "<", i) || at(v, "|", i) || at(v, ";", i) || at(v, "&", i) {
        Some(1)
    } else {
        None
    }
}

/// The length of the operator that a text begins with, if it begins with one.
pub fn shell_operator_len(value: &str) -> (r: Option<usize>)
    ensures
        (match r {
            Some(n) => Some(n as nat),
            None => None,
        }) == operator_len(value@, 0),
{
    operator_at(&text::chars_of(value), 0)
}

/// Whether a command comes behind an operator.
pub open spec fn starts_command(operator: Seq<char>) -> bool {
    operator == "|"@ || operator == "||"@ || operator == "&&"@ || operator == ";"@ || operator
        == "&"@
}

pub fn shell_operator_starts_command(operator: &str) -> (r: bool)
    ensures
        r == starts_command(operator@),
{
    text::same(operator, "|") || text::same(operator, "||") || text::same(operator, "&&")
        || text::same(operator, ";") || text::same(operator, "&")
}

/// The place behind the quote that ends a quoted stretch, or the end of the text. Only between
/// double quotes does a backslash take the next character out of account.
pub open spec fn quoted_end(s: Seq<char>, quote: char, i: int, escaped: bool) -> int
    decreases s.len() - i,
{
    if i < 0 || i >= s.len() {
        s.len() as int
    } else if escaped {
        quoted_end(s, quote, i + 1, false)
    } else if s[i] == '\\' && quote == '"' {
        quoted_end(s, quote, i + 1, true)
    } else if s[i] == quote {
        i + 1
    } else {
        quoted_end(s, quote, i + 1, false)
    }
}

fn end_of_quoted(v: &Vec<char>, quote: char, from: usize) -> (r: usize)
    requires
        from <= v@.len(),
    ensures
        r == quoted_end(v@, quote, from as int, false),
        from <= r <= v@.len(),
{
    let mut i: usize = from;
    let mut escaped = false;
    while i < v.len()
        invariant
            from <= i <= v@.len(),
            quoted_end(v@, quote, from as int, false) == quoted_end(v@, quote, i as int, escaped),
        decreases v@.len() - i,
    {
        let c = v[i];
        if escaped {
            escaped = false;
        } else if c == '\\' && quote == '"' {
            escaped = true;
        } else if c == quote {
            return i + 1;
        }
        i = i + 1;
    }
    i
}

/// The length of the quoted stretch that a text begins with, counted in bytes.
pub fn shell_quoted_token_len(value: &str, quote: char) -> (r: usize)
    ensures
        r == text::byte_len(value@.take(quoted_end(value@, quote, 1, false))),
{
    let v = text::chars_of(value);
    if v.len() == 0 {
        proof {
            assert(value@.take(quoted_end(value@, quote, 1, false)) =~= value@);
        }
        return 0;
    }
    let end = end_of_quoted(&v, quote, 1);
    text::len_in_bytes(value.substring_char(0, end))
}

/// Whether a word ends before this place.
pub open spec fn ends_word(s: Seq<char>, i: int) -> bool {
    text::is_space(s[i]) || operator_len(s, i) is Some || s[i] == '\'' || s[i] == '"'
}

/// The place from `i` on at which a word ends.
pub open spec fn word_end(s: Seq<char>, i: int) -> int
    decreases s.len() - i,
{
    if i < 0 || i >= s.len() {
        s.len() as int
    } else if ends_word(s, i) {
        i
    } else {
        word_end(s, i + 1)
    }
}

fn end_of_word(v: &Vec<char>, from: usize) -> (r: usize)
    requires
        from <= v@.len(),
    ensures
        r == word_end(v@, from as int),
        from <= r <= v@.len(),
{
    let mut i: usize = from;
    while i < v.len()
        invariant
            from <= i <= v@.len(),
            word_end(v@, from as int) == word_end(v@, i as int),
        decreases v@.len() - i,
    {
        let c = v[i];
        if text::is_whitespace(c) || operator_at(v, i).is_some() || c == '\'' || c == '"' {
            return i;
        }
        i = i + 1;
    }
    i
}

/// The length of the word that a text begins with, counted in bytes.
pub fn shell_word_len(value: &str) -> (r: usize)
    ensures
        r == text::byte_len(value@.take(word_end(value@, 0))),
{
    let end = end_of_word(&text::chars_of(value), 0);
    text::len_in_bytes(value.substring_char(0, end))
}

/// The place from `i` on at which the blanks end.
pub open spec fn space_end(s: Seq<char>, i: int) -> int
    decreases s.len() - i,
{
    if i < 0 || i >= s.len() {
        s.len() as int
    } else if !text::is_space(s[i]) {
        i
    } else {
        space_end(s, i + 1)
    }
}

fn end_of_space(v: &Vec<char>, from: usize) -> (r: usize)
    requires
        from <= v@.len(),
    ensures
        r == space_end(v@, from as int),
        from <= r <= v@.len(),
{
    let mut i: usize = from;
    while i < v.len() && text::is_whitespace(v[i])
        invariant
            from <= i <= v@.len(),
            space_end(v@, from as int) == space_end(v@, i as int),
        decreases v@.len() - i,
    {
        i = i + 1;
    }
    i
}

/// A stretch of a command: where it ends, how it looks, and whether a command comes next.
pub struct Token {
    pub end: int,
    pub style: Style,
    pub expects_command: bool,
}

/// How a word looks.
pub open spec fn word_style(first: char, expects_command: bool) -> Style {
    if expects_command {
        ui::colored(SemanticColor::Command).bolded()
    } else if first == '-' {
        ui::colored(SemanticColor::Focus)
    } else if first == '$' {
        ui::colored(SemanticColor::Success)
    } else {
        ui::colored(SemanticColor::Assistant)
    }
}

/// The stretch of a command that begins at `i`.
pub open spec fn token_at(s: Seq<char>, i: int, expects_command: bool) -> Token {
    if text::is_space(s[i]) {
        Token { end: space_end(s, i + 1), style: ui::plain_style(), expects_command }
    } else if operator_len(s, i) is Some {
        let end = i + operator_len(s, i)->0;
        Token {
            end,
            style: ui::colored(SemanticColor::ToolKeyword),
            expects_command: starts_command(s.subrange(i, end)),
        }
    } else if s[i] == '\'' || s[i] == '"' {
        Token {
            end: quoted_end(s, s[i], i + 1, false),
            style: ui::colored(SemanticColor::Command),
            expects_command: false,
        }
    } else {
        Token {
            end: word_end(s, i + 1),
            style: word_style(s[i], expects_command),
            expects_command: false,
        }
    }
}

proof fn lemma_ends_are_ahead(s: Seq<char>, quote: char, i: int, escaped: bool)
    requires
        0 <= i <= s.len(),
    ensures
        i <= quoted_end(s, quote, i, escaped) <= s.len(),
        i <= word_end(s, i) <= s.len(),
        i <= space_end(s, i) <= s.len(),
    decreases s.len() - i,
{
    if i < s.len() {
        lemma_ends_are_ahead(s, quote, i + 1, false);
        lemma_ends_are_ahead(s, quote, i + 1, true);
    }
}

proof fn lemma_tokens_advance(s: Seq<char>, i: int, expects_command: bool)
    requires
        0 <= i < s.len(),
    ensures
        i < token_at(s, i, expects_command).end <= s.len(),
{
    lemma_ends_are_ahead(s, s[i], i + 1, false);
    lemma_operator_fits(s, i);
}

/// The stretches of a command from `i` on.
pub open spec fn spans_from(s: Seq<char>, i: int, expects_command: bool) -> Seq<SpanView>
    decreases s.len() - i,
{
    if i < 0 || i >= s.len() {
        Seq::empty()
    } else {
        let t = token_at(s, i, expects_command);
        if i < t.end <= s.len() {
            seq![ui::span(s.subrange(i, t.end), t.style)] + spans_from(s, t.end, t.expects_command)
        } else {
            Seq::empty()
        }
    }
}

/// A command in its colors.
pub fn command_spans(command: &str) -> (r: Vec<Span>)
    ensures
        ui::span_views(r@) == spans_from(command@, 0, true),
{
    let v = text::chars_of(command);
    let mut spans: Vec<Span> = Vec::new();
    let mut i: usize = 0;
    let mut expects_command = true;
    proof {
        assert(ui::span_views(spans@) =~= Seq::empty());
        assert(Seq::<SpanView>::empty() + spans_from(command@, 0, true) =~= spans_from(
            command@,
            0,
            true,
        ));
    }
    while i < v.len()
        invariant
            i <= v@.len(),
            v@ == command@,
            ui::span_views(spans@) + spans_from(v@, i as int, expects_command) == spans_from(
                v@,
                0,
                true,
            ),
        decreases v@.len() - i,
    {
        let first = v[i];
        let ghost before = spans@;
        let ghost t = token_at(v@, i as int, expects_command);
        proof {
            lemma_tokens_advance(v@, i as int, expects_command);
            lemma_operator_fits(v@, i as int);
        }
        let mut end: usize = i;
        let mut style = Style::plain();
        if text::is_whitespace(first) {
            end = end_of_space(&v, i + 1);
        } else {
            match operator_at(&v, i) {
                Some(n) => {
                    end = i + n;
                    style = Style::color(SemanticColor::ToolKeyword);
                    expects_command =
                    shell_operator_starts_command(text::text_of(&v, i, end).as_str());
                },
                None => {
                    if first == '\'' || first == '"' {
                        end = end_of_quoted(&v, first, i + 1);
                        style = Style::color(SemanticColor::Command);
                    } else {
                        end = end_of_word(&v, i + 1);
                        style =
                        if expects_command {
                            Style::color(SemanticColor::Command).bold()
                        } else if first == '-' {
                            Style::color(SemanticColor::Focus)
                        } else if first == '$' {
                            Style::color(SemanticColor::Success)
                        } else {
                            Style::color(SemanticColor::Assistant)
                        };
                    }
                    expects_command = false;
                },
            }
        }
        proof {
            assert(end == t.end);
            assert(style == t.style);
            assert(expects_command == t.expects_command);
        }
        let next = Span::styled(text::text_of(&v, i, end), style);
        spans.push(next);
        proof {
            let rest = spans_from(v@, end as int, expects_command);
            assert(ui::span_views(spans@) =~= ui::span_views(before).push(next@));
            assert(next@ == ui::span(v@.subrange(i as int, t.end), t.style));
            assert(ui::span_views(spans@) + rest =~= ui::span_views(before) + (seq![next@]
                + rest));
        }
        i = end;
    }
    proof {
        assert(ui::span_views(spans@) + spans_from(v@, i as int, expects_command)
            =~= ui::span_views(spans@));
    }
    spans
}

/// The text of two stretches of a line is that of the one, and then that of the other.
pub proof fn lemma_line_text_concat(a: Seq<SpanView>, b: Seq<SpanView>)
    ensures
        ui::line_text(a + b) == ui::line_text(a) + ui::line_text(b),
    decreases b.len(),
{
    if b.len() == 0 {
        assert(a + b =~= a);
        assert(ui::line_text(a) + ui::line_text(b) =~= ui::line_text(a));
    } else {
        assert((a + b).drop_last() =~= a + b.drop_last());
        lemma_line_text_concat(a, b.drop_last());
        assert(ui::line_text(a) + ui::line_text(b) =~= (ui::line_text(a) + ui::line_text(
            b.drop_last(),
        )) + b.last().content);
    }
}

/// Coloring a command drops and changes nothing: its stretches are its text.
pub proof fn colors_keep_the_command(s: Seq<char>, i: int, expects_command: bool)
    requires
        0 <= i <= s.len(),
    ensures
        ui::line_text(spans_from(s, i, expects_command)) == s.skip(i),
    decreases s.len() - i,
{
    if i < s.len() {
        let t = token_at(s, i, expects_command);
        lemma_tokens_advance(s, i, expects_command);
        colors_keep_the_command(s, t.end, t.expects_command);
        let head = seq![ui::span(s.subrange(i, t.end), t.style)];
        lemma_line_text_concat(head, spans_from(s, t.end, t.expects_command));
        assert(head.drop_last() =~= Seq::empty());
        reveal_with_fuel(ui::line_text, 2);
        assert(ui::line_text(head) =~= s.subrange(i, t.end));
        assert(s.skip(i) =~= s.subrange(i, t.end) + s.skip(t.end));
    } else {
        assert(s.skip(i) =~= Seq::empty());
    }
}

} // verus!
