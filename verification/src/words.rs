//! Lines, words and numbers in a text.
use crate::text;
use vstd::prelude::*;

verus! {

/// A line without the carriage return at its end.
pub open spec fn without_return(s: Seq<char>) -> Seq<char> {
    if s.len() > 0 && s.last() == '\r' {
        s.drop_last()
    } else {
        s
    }
}

/// The lines of a text that end in a line break, of `parts` between the line breaks.
pub open spec fn ended_lines(parts: Seq<Seq<char>>) -> Seq<Seq<char>> {
    parts.map_values(|p: Seq<char>| without_return(p))
}

/// The lines of a text, without their ends. What stands behind the last line break is a line
/// too, unless it is empty.
pub open spec fn lines(s: Seq<char>) -> Seq<Seq<char>> {
    let parts = text::split(s, '\n');
    if parts.last().len() == 0 {
        ended_lines(parts.drop_last())
    } else {
        ended_lines(parts.drop_last()).push(parts.last())
    }
}

fn drop_return(s: &str) -> (r: String)
    ensures
        r@ == without_return(s@),
{
    let v = text::chars_of(s);
    let n = v.len();
    if n > 0 && v[n - 1] == '\r' {
        let r = text::text_of(&v, 0, n - 1);
        proof {
            assert(r@ =~= without_return(s@));
        }
        r
    } else {
        s.to_owned()
    }
}

/// The lines of a text.
pub fn lines_of(s: &str) -> (r: Vec<String>)
    ensures
        text::views(r@) == lines(s@),
{
    let parts = text::split_text(s, '\n');
    let last: usize = parts.len() - 1;
    let mut r: Vec<String> = Vec::new();
    let mut i: usize = 0;
    let ghost all = text::views(parts@);
    while i < last
        invariant
            i <= last,
            last == parts@.len() - 1,
            all == text::views(parts@),
            text::views(r@) == ended_lines(all.take(i as int)),
        decreases last - i,
    {
        let line = drop_return(parts[i].as_str());
        let ghost before = r@;
        r.push(line);
        proof {
            assert(text::views(r@) =~= text::views(before).push(line@));
            assert(ended_lines(all.take(i + 1)) =~= ended_lines(all.take(i as int)).push(
                without_return(all[i as int]),
            ));
        }
        i = i + 1;
    }
    proof {
        assert(all.take(last as int) =~= all.drop_last());
    }
    if !parts[last].as_str().is_empty() {
        let ghost before = r@;
        let line = parts[last].clone();
        r.push(line);
        proof {
            assert(text::views(r@) =~= text::views(before).push(line@));
        }
    }
    r
}

/// A text's words so far, with the one under way if there is one.
pub open spec fn with_word(done: Seq<Seq<char>>, word: Seq<char>) -> Seq<Seq<char>> {
    if word.len() == 0 {
        done
    } else {
        done.push(word)
    }
}

/// The words of a text behind those that are done and the one that is under way.
pub open spec fn words_behind(s: Seq<char>, done: Seq<Seq<char>>, word: Seq<char>) -> Seq<Seq<char>>
    decreases s.len(),
{
    if s.len() == 0 {
        with_word(done, word)
    } else if text::is_space(s[0]) {
        words_behind(s.drop_first(), with_word(done, word), Seq::empty())
    } else {
        words_behind(s.drop_first(), done, word.push(s[0]))
    }
}

/// The stretches of a text without blanks.
pub open spec fn words(s: Seq<char>) -> Seq<Seq<char>> {
    words_behind(s, Seq::empty(), Seq::empty())
}

/// The words of a text.
pub fn words_of(s: &str) -> (r: Vec<String>)
    ensures
        text::views(r@) == words(s@),
{
    let v = text::chars_of(s);
    let mut done: Vec<String> = Vec::new();
    let mut word = String::new();
    let mut i: usize = 0;
    proof {
        assert(text::views(done@) =~= Seq::empty());
        assert(word@ =~= Seq::empty());
        assert(s@.skip(0) =~= s@);
    }
    while i < v.len()
        invariant
            i <= v@.len(),
            v@ == s@,
            words(s@) == words_behind(s@.skip(i as int), text::views(done@), word@),
        decreases v@.len() - i,
    {
        let c = v[i];
        let ghost before = done@;
        let ghost begun = word@;
        proof {
            assert(s@.skip(i as int).drop_first() =~= s@.skip(i + 1));
            assert(s@.skip(i as int)[0] == s@[i as int]);
        }
        if text::is_whitespace(c) {
            if !word.as_str().is_empty() {
                done.push(word);
                word = String::new();
                proof {
                    assert(text::views(done@) =~= text::views(before).push(begun));
                }
            }
            proof {
                assert(word@ =~= Seq::empty());
            }
        } else {
            word.push(c);
        }
        i = i + 1;
    }
    let ghost before = done@;
    let ghost begun = word@;
    if !word.as_str().is_empty() {
        done.push(word);
        proof {
            assert(text::views(done@) =~= text::views(before).push(begun));
        }
    }
    proof {
        assert(s@.skip(i as int) =~= Seq::empty());
    }
    done
}

pub open spec fn is_digit(c: char) -> bool {
    '0' <= c && c <= '9'
}

pub open spec fn all_digits(s: Seq<char>) -> bool {
    forall|i: int| 0 <= i < s.len() ==> is_digit(#[trigger] s[i])
}

/// The number that some digits write.
pub open spec fn number(s: Seq<char>) -> nat
    decreases s.len(),
{
    if s.len() == 0 {
        0
    } else {
        number(s.drop_last()) * 10 + (s.last() as nat - '0' as nat) as nat
    }
}

/// A text without a plus at its front.
pub open spec fn without_plus(s: Seq<char>) -> Seq<char> {
    if s.len() > 0 && s[0] == '+' {
        s.drop_first()
    } else {
        s
    }
}

/// The number that a text writes in decimal, where it is one and not too large.
pub open spec fn size_value(s: Seq<char>) -> Option<nat> {
    let d = without_plus(s);
    if d.len() == 0 || !all_digits(d) || number(d) > usize::MAX {
        None
    } else {
        Some(number(d))
    }
}

/// More digits write no smaller number.
proof fn lemma_number_grows(s: Seq<char>, i: int)
    requires
        all_digits(s),
        0 <= i <= s.len(),
    ensures
        number(s.take(i)) <= number(s),
    decreases s.len(),
{
    if i == s.len() {
        assert(s.take(i) =~= s);
    } else {
        assert(s.drop_last().take(i) =~= s.take(i));
        lemma_number_grows(s.drop_last(), i);
        assert(is_digit(s[s.len() - 1]));
    }
}

/// Reads a number.
pub fn parse_size(s: &str) -> (r: Option<usize>)
    ensures
        match r {
            Some(n) => size_value(s@) == Some(n as nat),
            None => size_value(s@) is None,
        },
{
    let v = text::chars_of(s);
    let from: usize = if v.len() > 0 && v[0] == '+' {
        1
    } else {
        0
    };
    let ghost d = without_plus(s@);
    proof {
        assert(d =~= s@.skip(from as int));
    }
    if from == v.len() {
        return None;
    }
    let mut value: usize = 0;
    let mut i: usize = from;
    proof {
        assert(d.take(0) =~= Seq::empty());
    }
    while i < v.len()
        invariant
            from <= i <= v@.len(),
            v@ == s@,
            d == without_plus(s@),
            d == s@.skip(from as int),
            d.len() > 0,
            all_digits(d.take(i - from)),
            value == number(d.take(i - from)),
        decreases v@.len() - i,
    {
        let c = v[i];
        proof {
            assert(d[i - from] == c);
        }
        if c < '0' || c > '9' {
            proof {
                assert(!is_digit(d[i - from]));
            }
            return None;
        }
        let digit: usize = (c as u32 - '0' as u32) as usize;
        proof {
            assert(d.take(i - from + 1).drop_last() =~= d.take(i - from));
            assert(d.take(i - from + 1).last() == c);
            assert forall|k: int| 0 <= k < d.take(i - from + 1).len() implies is_digit(
                #[trigger] d.take(i - from + 1)[k],
            ) by {
                if k < i - from {
                    assert(is_digit(d.take(i - from)[k]));
                }
            }
            if all_digits(d) {
                lemma_number_grows(d, i - from + 1);
            }
        }
        value = match value.checked_mul(10) {
            Some(tens) => match tens.checked_add(digit) {
                Some(n) => n,
                None => {
                    return None;
                },
            },
            None => {
                return None;
            },
        };
        i = i + 1;
    }
    proof {
        assert(d.take(i - from) =~= d);
    }
    Some(value)
}

/// What writing a number in decimal gives is read back as that number.
pub proof fn written_numbers_are_read_back(n: nat)
    ensures
        all_digits(text::decimal(n)),
        number(text::decimal(n)) == n,
        n <= usize::MAX ==> size_value(text::decimal(n)) == Some(n),
    decreases n,
{
    let s = text::decimal(n);
    text::numbers_are_written_apart(n, n);
    assert forall|i: int| 0 <= i < s.len() implies is_digit(#[trigger] s[i]) by {}
    let d = n % 10;
    let last = (0x30 + d) as u8;
    assert(last as char as u32 == last as u32);
    assert(s.last() as nat - '0' as nat == d) by {
        assert(s.last() == text::digit(d));
    }
    if n >= 10 {
        written_numbers_are_read_back(n / 10);
        assert(s.drop_last() =~= text::decimal(n / 10));
    } else {
        assert(s.drop_last() =~= Seq::<char>::empty());
        assert(number(s.drop_last()) == 0);
    }
    assert(number(s) == n);
    assert(s[0] != '+') by {
        assert(is_digit(s[0]));
    }
}

spec fn no_space(w: Seq<char>) -> bool {
    forall|i: int| 0 <= i < w.len() ==> !text::is_space(#[trigger] w[i])
}

proof fn lemma_words_behind(s: Seq<char>, done: Seq<Seq<char>>, word: Seq<char>)
    requires
        forall|k: int| 0 <= k < done.len() ==> (#[trigger] done[k]).len() > 0 && no_space(done[k]),
        no_space(word),
    ensures
        forall|k: int|
            0 <= k < words_behind(s, done, word).len() ==> (#[trigger] words_behind(
                s,
                done,
                word,
            )[k]).len() > 0 && no_space(words_behind(s, done, word)[k]),
        flat(words_behind(s, done, word)) == flat(done) + word + s.filter(
            |c: char| !text::is_space(c),
        ),
    decreases s.len(),
{
    let kept = |c: char| !text::is_space(c);
    if s.len() == 0 {
        reveal(Seq::filter);
        assert(s.filter(kept) =~= Seq::<char>::empty());
        lemma_flat_push(done, word);
        assert(flat(words_behind(s, done, word)) =~= flat(done) + word + s.filter(kept));
    } else {
        let rest = s.drop_first();
        lemma_filter_first(s, kept);
        if text::is_space(s[0]) {
            let more = with_word(done, word);
            assert forall|k: int| 0 <= k < more.len() implies (#[trigger] more[k]).len() > 0
                && no_space(more[k]) by {
                if k < done.len() {
                    assert(more[k] == done[k]);
                }
            }
            lemma_words_behind(rest, more, Seq::empty());
            lemma_flat_push(done, word);
            assert(flat(more) =~= flat(done) + word);
            assert(flat(more) + Seq::<char>::empty() =~= flat(more));
        } else {
            let longer = word.push(s[0]);
            assert(no_space(longer)) by {
                assert forall|i: int| 0 <= i < longer.len() implies !text::is_space(
                    #[trigger] longer[i],
                ) by {
                    if i < word.len() {
                        assert(longer[i] == word[i]);
                    }
                }
            }
            lemma_words_behind(rest, done, longer);
            assert(flat(done) + longer + rest.filter(kept) =~= flat(done) + word + s.filter(kept));
        }
    }
}

proof fn lemma_filter_first(s: Seq<char>, kept: spec_fn(char) -> bool)
    requires
        s.len() > 0,
    ensures
        s.filter(kept) == (if kept(s[0]) {
            seq![s[0]]
        } else {
            Seq::empty()
        }) + s.drop_first().filter(kept),
    decreases s.len(),
{
    reveal(Seq::filter);
    if s.len() == 1 {
        assert(s.drop_last() =~= Seq::<char>::empty());
        assert(s.drop_first() =~= Seq::<char>::empty());
        assert(s.drop_last().filter(kept) =~= Seq::<char>::empty());
        assert(s.filter(kept) =~= (if kept(s[0]) {
            seq![s[0]]
        } else {
            Seq::empty()
        }) + s.drop_first().filter(kept));
    } else {
        lemma_filter_first(s.drop_last(), kept);
        assert(s.drop_last().drop_first() =~= s.drop_first().drop_last());
        assert(s.drop_first().last() == s.last());
        assert(s.filter(kept) =~= (if kept(s[0]) {
            seq![s[0]]
        } else {
            Seq::empty()
        }) + s.drop_first().filter(kept));
    }
}

/// Some texts, one directly behind the other.
pub open spec fn flat(parts: Seq<Seq<char>>) -> Seq<char>
    decreases parts.len(),
{
    if parts.len() == 0 {
        Seq::empty()
    } else {
        flat(parts.drop_last()) + parts.last()
    }
}

proof fn lemma_flat_push(parts: Seq<Seq<char>>, last: Seq<char>)
    ensures
        flat(parts.push(last)) == flat(parts) + last,
{
    assert(parts.push(last).drop_last() =~= parts);
}

/// The words of a text hold all its characters but the white space, in their order; no word is
/// empty, and none holds white space.
pub proof fn words_hold_all_but_white_space(s: Seq<char>)
    ensures
        flat(words(s)) == s.filter(|c: char| !text::is_space(c)),
        forall|k: int|
            0 <= k < words(s).len() ==> (#[trigger] words(s)[k]).len() > 0 && (forall|i: int|
                0 <= i < words(s)[k].len() ==> !text::is_space(#[trigger] words(s)[k][i])),
{
    lemma_words_behind(s, Seq::empty(), Seq::empty());
    assert(flat(words(s)) =~= s.filter(|c: char| !text::is_space(c)));
    assert forall|k: int| 0 <= k < words(s).len() implies (#[trigger] words(s)[k]).len() > 0 && (
    forall|i: int| 0 <= i < words(s)[k].len() ==> !text::is_space(#[trigger] words(s)[k][i])) by {
        assert(no_space(words(s)[k]));
    }
}

proof fn lemma_words_done(s: Seq<char>, done: Seq<Seq<char>>, word: Seq<char>)
    ensures
        words_behind(s, done, word) == done + words_behind(s, Seq::empty(), word),
    decreases s.len(),
{
    let none = Seq::<Seq<char>>::empty();
    if s.len() == 0 {
        assert(with_word(done, word) =~= done + with_word(none, word));
    } else if text::is_space(s[0]) {
        lemma_words_done(s.drop_first(), with_word(done, word), Seq::empty());
        lemma_words_done(s.drop_first(), with_word(none, word), Seq::empty());
        assert(with_word(done, word) =~= done + with_word(none, word));
        assert(words_behind(s, done, word) =~= done + words_behind(s, none, word));
    } else {
        lemma_words_done(s.drop_first(), done, word.push(s[0]));
    }
}

proof fn lemma_words_at_space(a: Seq<char>, c: char, b: Seq<char>, done: Seq<Seq<char>>, word: Seq<char>)
    requires
        text::is_space(c),
    ensures
        words_behind(a.push(c) + b, done, word) == words_behind(
            b,
            words_behind(a, done, word),
            Seq::empty(),
        ),
    decreases a.len(),
{
    let s = a.push(c) + b;
    if a.len() == 0 {
        assert(s.drop_first() =~= b);
    } else {
        let rest = a.drop_first();
        assert(s.drop_first() =~= rest.push(c) + b);
        if text::is_space(a[0]) {
            lemma_words_at_space(rest, c, b, with_word(done, word), Seq::empty());
        } else {
            lemma_words_at_space(rest, c, b, done, word.push(a[0]));
        }
    }
}

proof fn lemma_one_word(s: Seq<char>, word: Seq<char>)
    requires
        no_space(s),
    ensures
        words_behind(s, Seq::empty(), word) == with_word(Seq::empty(), word + s),
    decreases s.len(),
{
    if s.len() == 0 {
        assert(word + s =~= word);
    } else {
        let rest = s.drop_first();
        assert(!text::is_space(s[0]));
        assert forall|i: int| 0 <= i < rest.len() implies !text::is_space(#[trigger] rest[i]) by {
            assert(rest[i] == s[i + 1]);
        }
        lemma_one_word(rest, word.push(s[0]));
        assert(word.push(s[0]) + rest =~= word + s);
    }
}

/// A text is parted into words at its white space and nowhere else: without any it is one word,
/// and the words on both sides of some are the words of the two sides.
pub proof fn words_end_at_white_space(a: Seq<char>, c: char, b: Seq<char>)
    requires
        text::is_space(c),
    ensures
        words(a.push(c) + b) == words(a) + words(b),
        a.len() > 0 && (forall|i: int| 0 <= i < a.len() ==> !text::is_space(#[trigger] a[i]))
            ==> words(a) == seq![a],
{
    lemma_words_at_space(a, c, b, Seq::empty(), Seq::empty());
    lemma_words_done(b, words(a), Seq::empty());
    if a.len() > 0 && no_space(a) {
        lemma_one_word(a, Seq::empty());
        assert(Seq::<char>::empty() + a =~= a);
        assert(words(a) =~= seq![a]);
    }
}

/// A text's lines hold no line break. Where neither holds one and the first ends in no carriage
/// return, a first line and what follows it are read as that line and the lines of the rest;
/// a carriage return in front of the line break belongs to it.
pub proof fn lines_end_at_line_breaks(line: Seq<char>, rest: Seq<char>)
    requires
        !line.contains('\n'),
        line.len() > 0 ==> line.last() != '\r',
    ensures
        lines(line.push('\n') + rest) == seq![line] + lines(rest),
        lines(line.push('\r').push('\n') + rest) == seq![line] + lines(rest),
        line.len() > 0 ==> lines(line) == seq![line],
        lines(Seq::<char>::empty()).len() == 0,
{
    lemma_first_line(line, rest);
    let returned = line.push('\r');
    assert(!returned.contains('\n')) by {
        if returned.contains('\n') {
            let i = choose|i: int| 0 <= i < returned.len() && returned[i] == '\n';
            assert(line[i] == '\n');
        }
    }
    lemma_first_line(returned, rest);
    assert(returned.drop_last() =~= line);
    lemma_unsplit(line);
    lemma_unsplit(Seq::<char>::empty());
    assert(lines(Seq::<char>::empty()) =~= Seq::<Seq<char>>::empty());
    if line.len() > 0 {
        assert(lines(line) =~= seq![line]);
    }
}

proof fn lemma_unsplit(s: Seq<char>)
    requires
        !s.contains('\n'),
    ensures
        text::split(s, '\n') == seq![s],
    decreases s.len(),
{
    if s.len() == 0 {
        assert(s =~= Seq::<char>::empty());
    } else {
        let init = s.drop_last();
        assert(!init.contains('\n')) by {
            if init.contains('\n') {
                let i = choose|i: int| 0 <= i < init.len() && init[i] == '\n';
                assert(s[i] == '\n');
            }
        }
        lemma_unsplit(init);
        assert(s[s.len() - 1] == s.last());
        assert(s.contains(s.last()));
        assert(init.push(s.last()) =~= s);
        assert(text::split(s, '\n') =~= seq![s]);
    }
}

proof fn lemma_split_behind(line: Seq<char>, rest: Seq<char>)
    requires
        !line.contains('\n'),
    ensures
        text::split(line.push('\n') + rest, '\n') == seq![line] + text::split(rest, '\n'),
    decreases rest.len(),
{
    let s = line.push('\n') + rest;
    text::lemma_split_nonempty(rest, '\n');
    if rest.len() == 0 {
        lemma_unsplit(line);
        assert(s.drop_last() =~= line);
        assert(s.last() == '\n');
        assert(text::split(s, '\n') =~= seq![line] + text::split(rest, '\n'));
    } else {
        let init = rest.drop_last();
        text::lemma_split_nonempty(init, '\n');
        lemma_split_behind(line, init);
        assert(s.drop_last() =~= line.push('\n') + init);
        assert(s.last() == rest.last());
        let before = text::split(init, '\n');
        assert((seq![line] + before).drop_last() =~= seq![line] + before.drop_last());
        assert((seq![line] + before).last() == before.last());
        assert(text::split(s, '\n') =~= seq![line] + text::split(rest, '\n'));
    }
}

proof fn lemma_first_line(line: Seq<char>, rest: Seq<char>)
    requires
        !line.contains('\n'),
    ensures
        lines(line.push('\n') + rest) == seq![without_return(line)] + lines(rest),
{
    lemma_split_behind(line, rest);
    let parts = text::split(rest, '\n');
    text::lemma_split_nonempty(rest, '\n');
    let all = seq![line] + parts;
    assert(all.last() == parts.last());
    assert(all.drop_last() =~= seq![line] + parts.drop_last());
    assert(ended_lines(all.drop_last()) =~= seq![without_return(line)] + ended_lines(
        parts.drop_last(),
    ));
    assert(lines(line.push('\n') + rest) =~= seq![without_return(line)] + lines(rest));
}

} // verus!
