//! What can be copied, and the controls that copy it.
use crate::text;
use crate::ui;
use crate::ui::{Line, SemanticColor, Span, Style};
use vstd::prelude::*;

verus! {

/// The most bytes that are ever copied.
pub const MAX_CLIPBOARD_BYTES: usize = 1_048_576;

#[derive(Debug, Clone, Copy, PartialEq, Eq, Structural)]
pub enum CopyTextError {
    TooLarge,
}

/// A text that is put together to be copied.
pub struct CopyTextBuilder {
    text: String,
}

impl View for CopyTextBuilder {
    type V = Seq<char>;

    closed spec fn view(&self) -> Seq<char> {
        self.text@
    }
}

/// Whether a text is short enough to be copied.
pub open spec fn copyable(s: Seq<char>) -> bool {
    text::byte_len(s) <= MAX_CLIPBOARD_BYTES
}

impl CopyTextBuilder {
    pub fn new() -> (r: CopyTextBuilder)
        ensures
            r@ == Seq::<char>::empty(),
            copyable(r@),
    {
        CopyTextBuilder { text: String::new() }
    }

    /// Adds a piece, unless the text would grow too long: then it stays as it is.
    pub fn push_str(&mut self, chunk: &str) -> (r: Result<(), CopyTextError>)
        ensures
            match r {
                Ok(_) => copyable(old(self)@ + chunk@) && final(self)@ == old(self)@ + chunk@,
                Err(e) => e == CopyTextError::TooLarge && !copyable(old(self)@ + chunk@)
                    && final(self)@ == old(self)@,
            },
    {
        let held = text::len_in_bytes(self.text.as_str());
        let added = text::len_in_bytes(chunk);
        proof {
            text::lemma_byte_len_concat(self.text@, chunk@);
        }
        match held.checked_add(added) {
            None => Err(CopyTextError::TooLarge),
            Some(next_len) => {
                if next_len > MAX_CLIPBOARD_BYTES {
                    Err(CopyTextError::TooLarge)
                } else {
                    self.text.append(chunk);
                    Ok(())
                }
            },
        }
    }

    pub fn finish(self) -> (r: String)
        ensures
            r@ == self@,
    {
        self.text
    }
}

/// A text, if it is short enough to be copied.
pub fn validate_copy_text(value: String) -> (r: Result<String, CopyTextError>)
    ensures
        match r {
            Ok(s) => copyable(value@) && s == value,
            Err(e) => !copyable(value@) && e == CopyTextError::TooLarge,
        },
{
    if text::len_in_bytes(value.as_str()) > MAX_CLIPBOARD_BYTES {
        Err(CopyTextError::TooLarge)
    } else {
        Ok(value)
    }
}

/// The text that pieces make when each is added that fits: one that does not is left out.
pub open spec fn built(chunks: Seq<Seq<char>>) -> Seq<char>
    decreases chunks.len(),
{
    if chunks.len() == 0 {
        Seq::empty()
    } else {
        let before = built(chunks.drop_last());
        if copyable(before + chunks.last()) {
            before + chunks.last()
        } else {
            before
        }
    }
}

/// Whatever is added, what is built never grows too long to be copied.
pub proof fn copies_keep_to_the_limit(chunks: Seq<Seq<char>>)
    ensures
        copyable(built(chunks)),
    decreases chunks.len(),
{
    if chunks.len() > 0 {
        copies_keep_to_the_limit(chunks.drop_last());
    }
}

/// What a control copies. Code comes with its text; an answer is found in the conversation.
#[derive(Debug, PartialEq, Eq)]
pub enum CopyContent {
    Text(String),
    AssistantMessage(usize),
}

/// A control: its line among those that are shown, its columns, and what it copies.
#[derive(Debug, PartialEq, Eq)]
pub struct CopyTarget {
    pub line_index: usize,
    pub column: u16,
    pub width: u16,
    pub content: CopyContent,
}

impl CopyTarget {
    pub fn new(line_index: usize, width: u16, content: CopyContent) -> (r: CopyTarget)
        ensures
            r == (CopyTarget { line_index, column: 0, width, content }),
    {
        CopyTarget { line_index, column: 0, width, content }
    }
}

/// The label of a control: the whole one, a short one where that does not fit, or none.
pub open spec fn fitting_label(label: Seq<char>, width: u16) -> Option<Seq<char>> {
    if width >= text::byte_len(label) {
        Some(label)
    } else if width >= 6 {
        Some("[Copy]"@)
    } else {
        None
    }
}

pub open spec fn header_style() -> Style {
    ui::colored(SemanticColor::Focus).bolded()
}

/// The line of a control, and how many columns it takes.
pub fn copy_header(label: &'static str, width: u16) -> (r: Option<(Line, u16)>)
    ensures
        match fitting_label(label@, width) {
            Some(shown) => r matches Some((line, columns)) && line@ == seq![
                ui::span(shown, header_style()),
            ] && columns == text::byte_len(shown) && columns <= width,
            None => r is None,
        },
{
    let full = text::len_in_bytes(label);
    let (shown, columns) = if width as usize >= full {
        (label, full as u16)
    } else if width >= 6 {
        proof {
            reveal_strlit("[Copy]");
            reveal_with_fuel(text::byte_len, 7);
        }
        ("[Copy]", 6)
    } else {
        return None;
    };
    Some((Line::one(Span::of(shown, Style::color(SemanticColor::Focus).bold())), columns))
}

/// What is built of chunks that fit together is all of them; whatever they are, it can be
/// copied, and a chunk that fits is added as a whole or, where it does not fit, not at all.
pub proof fn chunks_are_copied_whole(chunks: Seq<Seq<char>>, last: Seq<char>)
    ensures
        copyable(built(chunks)),
        text::byte_len(built(chunks) + last) <= MAX_CLIPBOARD_BYTES ==> built(chunks.push(last))
            == built(chunks) + last,
        text::byte_len(built(chunks) + last) > MAX_CLIPBOARD_BYTES ==> built(chunks.push(last))
            == built(chunks),
    decreases chunks.len(),
{
    assert(chunks.push(last).drop_last() =~= chunks);
    if chunks.len() > 0 {
        chunks_are_copied_whole(chunks.drop_last(), chunks.last());
        assert(chunks.drop_last().push(chunks.last()) =~= chunks);
    } else {
        assert(text::byte_len(built(chunks)) == 0);
    }
}

/// A control is shown in full where it fits, in short where only that does, and not at all
/// where neither fits: what is shown fits.
pub proof fn labels_fit_their_line(label: Seq<char>, width: u16)
    ensures
        fitting_label(label, width) matches Some(shown) ==> text::byte_len(shown) <= width,
        text::byte_len(label) <= width ==> fitting_label(label, width) == Some(label),
        fitting_label(label, width) is None ==> width < 6 && width < text::byte_len(label),
{
    reveal_strlit("[Copy]");
    let short = "[Copy]"@;
    reveal_with_fuel(text::byte_len, 7);
    assert(short.len() == 6);
    assert(text::byte_len(short) == 6);
}

} // verus!
