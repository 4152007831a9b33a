//! Text as a sequence of characters: lengths in UTF-8 bytes, trimming,
//! searching, splitting and decimal numbers.
use vstd::prelude::*;
use vstd::utf8::*;

verus! {

broadcast use vstd::utf8::char_is_scalar;

/// The number of bytes of a character's UTF-8 encoding.
pub open spec fn utf8_width(c: char) -> nat {
    if (c as u32) < 0x80 {
        1
    } else if (c as u32) < 0x800 {
        2
    } else if (c as u32) < 0x10000 {
        3
    } else {
        4
    }
}

/// The number of bytes of a text's UTF-8 encoding.
pub open spec fn byte_len(s: Seq<char>) -> nat
    decreases s.len(),
{
    if s.len() == 0 {
        0
    } else {
        byte_len(s.drop_last()) + utf8_width(s.last())
    }
}

/// The number of characters that lie wholly within the first `bytes` bytes.
pub open spec fn index_at_byte(s: Seq<char>, bytes: int) -> nat
    decreases s.len(),
{
    if s.len() == 0 {
        0
    } else if byte_len(s) <= bytes {
        s.len()
    } else {
        index_at_byte(s.drop_last(), bytes)
    }
}

/// Whether byte offset `bytes` falls between two characters of `s`, or at an end.
pub open spec fn is_boundary(s: Seq<char>, bytes: int) -> bool {
    byte_len(s.take(index_at_byte(s, bytes) as int)) == bytes
}

pub proof fn lemma_byte_len_concat(a: Seq<char>, b: Seq<char>)
    ensures
        byte_len(a + b) == byte_len(a) + byte_len(b),
    decreases b.len(),
{
    if b.len() == 0 {
        assert(a + b =~= a);
    } else {
        assert((a + b).drop_last() =~= a + b.drop_last());
        lemma_byte_len_concat(a, b.drop_last());
    }
}

proof fn lemma_scalar_len(c: char)
    ensures
        encode_scalar(c as u32).len() == utf8_width(c),
{
}

proof fn lemma_encoded_len(s: Seq<char>)
    ensures
        encode_utf8(s).len() == byte_len(s),
    decreases s.len(),
{
    if s.len() > 0 {
        lemma_encoded_len(s.drop_first());
        assert(s =~= seq![s[0]] + s.drop_first());
        lemma_byte_len_concat(seq![s[0]], s.drop_first());
        assert(seq![s[0]].drop_last() =~= Seq::<char>::empty());
        assert(byte_len(seq![s[0]]) == utf8_width(s[0])) by {
            reveal_with_fuel(byte_len, 2);
        }
        lemma_scalar_len(s[0]);
    }
}

pub proof fn lemma_byte_len_take(s: Seq<char>, i: int)
    requires
        0 <= i <= s.len(),
    ensures
        byte_len(s.take(i)) <= byte_len(s),
        i < s.len() ==> byte_len(s.take(i + 1)) == byte_len(s.take(i)) + utf8_width(s[i]),
        i <= byte_len(s.take(i)),
    decreases s.len() - i,
{
    assert(s.take(i) + s.skip(i) =~= s);
    lemma_byte_len_concat(s.take(i), s.skip(i));
    if i < s.len() {
        assert(s.take(i + 1).drop_last() =~= s.take(i));
    }
    lemma_len_at_most_bytes(s.take(i));
}

proof fn lemma_len_at_most_bytes(s: Seq<char>)
    ensures
        s.len() <= byte_len(s),
    decreases s.len(),
{
    if s.len() > 0 {
        lemma_len_at_most_bytes(s.drop_last());
    }
}

/// `index_at_byte` undoes `byte_len`: the offset behind `i` characters leads back to `i`.
pub proof fn lemma_index_at_byte(s: Seq<char>, i: int)
    requires
        0 <= i <= s.len(),
    ensures
        index_at_byte(s, byte_len(s.take(i)) as int) == i,
    decreases s.len(),
{
    if i == s.len() {
        assert(s.take(i) =~= s);
        if s.len() == 0 {
        }
    } else {
        lemma_byte_len_take(s, i);
        lemma_byte_len_take(s, i + 1);
        assert(byte_len(s.take(i)) < byte_len(s));
        assert(s.drop_last().take(i) =~= s.take(i));
        lemma_index_at_byte(s.drop_last(), i);
    }
}

pub proof fn lemma_index_at_byte_range(s: Seq<char>, bytes: int)
    ensures
        index_at_byte(s, bytes) <= s.len(),
        bytes >= 0 ==> byte_len(s.take(index_at_byte(s, bytes) as int)) <= bytes,
        index_at_byte(s, bytes) < s.len() ==> bytes < byte_len(
            s.take(index_at_byte(s, bytes) as int + 1),
        ),
    decreases s.len(),
{
    if s.len() == 0 {
        assert(s.take(0) =~= s);
    } else if byte_len(s) <= bytes {
        assert(s.take(s.len() as int) =~= s);
    } else {
        lemma_index_at_byte_range(s.drop_last(), bytes);
        let i = index_at_byte(s.drop_last(), bytes) as int;
        assert(s.drop_last().take(i) =~= s.take(i));
        if i < s.drop_last().len() {
            assert(s.drop_last().take(i + 1) =~= s.take(i + 1));
        } else {
            assert(s.take(i + 1) =~= s);
        }
    }
}

/// The characters of a text.
pub fn chars_of(s: &str) -> (v: Vec<char>)
    ensures
        v@ == s@,
{
    let mut v: Vec<char> = Vec::new();
    for c in iter: s.chars()
        invariant
            v@ == s@.take(iter.index()),
            iter.seq() == s@,
    {
        v.push(c);
        proof {
            assert(s@.take(iter.index() + 1) =~= s@.take(iter.index()).push(c));
        }
    }
    assert(s@.take(s@.len() as int) =~= s@);
    v
}

/// `String::push` appends one character.
pub assume_specification[ String::push ](s: &mut String, c: char)
    ensures
        final(s)@ == old(s)@.push(c),
;

/// The text of the characters from `from` up to `to`.
pub fn text_of(v: &Vec<char>, from: usize, to: usize) -> (s: String)
    requires
        from <= to <= v@.len(),
    ensures
        s@ == v@.subrange(from as int, to as int),
{
    let mut s = String::new();
    let mut i: usize = from;
    while i < to
        invariant
            from <= i <= to <= v@.len(),
            s@ == v@.subrange(from as int, i as int),
        decreases to - i,
    {
        s.push(v[i]);
        proof {
            assert(v@.subrange(from as int, i + 1) =~= v@.subrange(from as int, i as int).push(
                v@[i as int],
            ));
        }
        i += 1;
    }
    s
}

/// The text of all the characters.
pub fn whole_text(v: &Vec<char>) -> (s: String)
    ensures
        s@ == v@,
{
    proof {
        assert(v@.subrange(0, v@.len() as int) =~= v@);
    }
    text_of(v, 0, v.len())
}

/// The characters with those from `from` up to `to` replaced by `value`.
pub fn splice(v: &Vec<char>, from: usize, to: usize, value: &Vec<char>) -> (r: Vec<char>)
    requires
        from <= to <= v@.len(),
    ensures
        r@ == v@.take(from as int) + value@ + v@.skip(to as int),
{
    let mut r: Vec<char> = Vec::new();
    push_chars(&mut r, v, 0, from);
    push_chars(&mut r, value, 0, value.len());
    push_chars(&mut r, v, to, v.len());
    proof {
        assert(r@ =~= v@.take(from as int) + value@ + v@.skip(to as int));
    }
    r
}

/// Appends the characters of `v` from `from` up to `to`.
pub fn push_chars(r: &mut Vec<char>, v: &Vec<char>, from: usize, to: usize)
    requires
        from <= to <= v@.len(),
    ensures
        final(r)@ == old(r)@ + v@.subrange(from as int, to as int),
{
    let ghost start = r@;
    let mut i: usize = from;
    proof {
        assert(r@ =~= start + v@.subrange(from as int, i as int));
    }
    while i < to
        invariant
            from <= i <= to <= v@.len(),
            r@ == start + v@.subrange(from as int, i as int),
        decreases to - i,
    {
        r.push(v[i]);
        proof {
            assert(r@ =~= start + v@.subrange(from as int, i + 1));
        }
        i += 1;
    }
}

/// A text's length in bytes.
pub fn len_in_bytes(s: &str) -> (n: usize)
    ensures
        n == byte_len(s@),
{
    proof {
        lemma_encoded_len(s@);
    }
    s.as_bytes().len()
}

/// Text equality: `str`'s `==` compares the characters.
pub assume_specification[ <str as PartialEq<str>>::eq ](a: &str, b: &str) -> (same: bool)
    ensures
        same == (a@ == b@),
;

/// Whether two texts hold the same characters.
pub fn same(a: &str, b: &str) -> (r: bool)
    ensures
        r == (a@ == b@),
{
    a.eq(b)
}

/// A text in quotation marks, with the escapes of Rust's debug format.
pub uninterp spec fn quoted_debug(s: Seq<char>) -> Seq<char>;

/// `format!` with `{:?}` on a text: quotation marks around it, special characters escaped.
#[verifier::external_body]
pub(crate) fn debug_text(s: &str) -> (r: String)
    ensures
        r@ == quoted_debug(s@),
{
    format!("{:?}", s)
}

/// Whether a character is white space, as Unicode's `White_Space` property lists it.
pub open spec fn is_space(c: char) -> bool {
    let v = c as u32;
    ||| 0x9 <= v <= 0xD
    ||| v == 0x20
    ||| v == 0x85
    ||| v == 0xA0
    ||| v == 0x1680
    ||| 0x2000 <= v <= 0x200A
    ||| v == 0x2028
    ||| v == 0x2029
    ||| v == 0x202F
    ||| v == 0x205F
    ||| v == 0x3000
}

pub fn is_whitespace(c: char) -> (r: bool)
    ensures
        r == is_space(c),
{
    let v: u32 = c as u32;
    (0x9 <= v && v <= 0xD) || v == 0x20 || v == 0x85 || v == 0xA0 || v == 0x1680 || (0x2000 <= v
        && v <= 0x200A) || v == 0x2028 || v == 0x2029 || v == 0x202F || v == 0x205F || v == 0x3000
}

/// Whether a character is a control character: C0, delete or C1.
pub open spec fn is_control_char(c: char) -> bool {
    (c as u32) < 0x20 || 0x7F <= (c as u32) <= 0x9F
}

pub fn is_control(c: char) -> (r: bool)
    ensures
        r == is_control_char(c),
{
    let v: u32 = c as u32;
    v < 0x20 || (0x7F <= v && v <= 0x9F)
}

/// A text of white space only; the empty text is one.
pub open spec fn is_blank(s: Seq<char>) -> bool {
    forall|i: int| 0 <= i < s.len() ==> is_space(#[trigger] s[i])
}

/// A text without its leading white space.
pub open spec fn trim_start(s: Seq<char>) -> Seq<char>
    decreases s.len(),
{
    if s.len() == 0 || !is_space(s[0]) {
        s
    } else {
        trim_start(s.drop_first())
    }
}

/// A text without its trailing white space.
pub open spec fn trim_end(s: Seq<char>) -> Seq<char>
    decreases s.len(),
{
    if s.len() == 0 || !is_space(s.last()) {
        s
    } else {
        trim_end(s.drop_last())
    }
}

/// A text without white space at either end.
pub open spec fn trimmed(s: Seq<char>) -> Seq<char> {
    trim_end(trim_start(s))
}

proof fn lemma_trim_start_skip(s: Seq<char>, i: int)
    requires
        0 <= i <= s.len(),
        forall|j: int| 0 <= j < i ==> is_space(#[trigger] s[j]),
    ensures
        trim_start(s) == trim_start(s.skip(i)),
    decreases i,
{
    if i == 0 {
        assert(s.skip(0) =~= s);
    } else {
        assert(is_space(s[0]));
        assert forall|j: int| 0 <= j < i - 1 implies is_space(#[trigger] s.drop_first()[j]) by {
            assert(s.drop_first()[j] == s[j + 1]);
        }
        lemma_trim_start_skip(s.drop_first(), i - 1);
        assert(s.drop_first().skip(i - 1) =~= s.skip(i));
    }
}

/// A text without white space at either end.
pub fn trim(s: &str) -> (r: String)
    ensures
        r@ == trimmed(s@),
{
    let v = chars_of(s);
    let n: usize = v.len();
    let mut from: usize = 0;
    while from < n && is_whitespace(v[from])
        invariant
            n == v@.len(),
            from <= n,
            forall|j: int| 0 <= j < from ==> is_space(#[trigger] v@[j]),
        decreases n - from,
    {
        from += 1;
    }
    proof {
        lemma_trim_start_skip(v@, from as int);
    }
    let mut to: usize = n;
    let ghost rest = v@.skip(from as int);
    proof {
        assert(rest =~= v@.subrange(from as int, to as int));
    }
    while to > from && is_whitespace(v[to - 1])
        invariant
            n == v@.len(),
            from <= to <= n,
            trim_end(rest) == trim_end(v@.subrange(from as int, to as int)),
        decreases to,
    {
        proof {
            let cur = v@.subrange(from as int, to as int);
            assert(cur.last() == v@[to - 1]);
            assert(cur.drop_last() =~= v@.subrange(from as int, to - 1));
        }
        to -= 1;
    }
    proof {
        let cur = v@.subrange(from as int, to as int);
        if to > from {
            assert(cur.last() == v@[to - 1]);
        }
        if from < n {
            assert(rest[0] == v@[from as int]);
        }
    }
    text_of(&v, from, to)
}

/// Where the white space at the end of a text begins.
pub fn trimmed_end(v: &Vec<char>) -> (end: usize)
    ensures
        end <= v@.len(),
        trim_end(v@) == v@.take(end as int),
{
    let mut end: usize = v.len();
    proof {
        assert(v@.take(end as int) =~= v@);
    }
    while end > 0 && is_whitespace(v[end - 1])
        invariant
            end <= v@.len(),
            trim_end(v@) == trim_end(v@.take(end as int)),
        decreases end,
    {
        proof {
            assert(v@.take(end as int).drop_last() =~= v@.take(end - 1));
        }
        end -= 1;
    }
    end
}

/// Whether a text is blank.
pub fn blank(s: &str) -> (r: bool)
    ensures
        r == is_blank(s@),
{
    let v = chars_of(s);
    let mut i: usize = 0;
    while i < v.len()
        invariant
            i <= v@.len(),
            v@ == s@,
            forall|j: int| 0 <= j < i ==> is_space(#[trigger] v@[j]),
        decreases v@.len() - i,
    {
        if !is_whitespace(v[i]) {
            return false;
        }
        i += 1;
    }
    true
}

/// The decimal digit with the given value.
pub open spec fn digit(d: nat) -> char {
    ((0x30 + d) as u8) as char
}

/// A number in decimal, without leading zeros.
pub open spec fn decimal(n: nat) -> Seq<char>
    decreases n,
{
    if n < 10 {
        seq![digit(n)]
    } else {
        decimal(n / 10).push(digit(n % 10))
    }
}

/// Writes a number in decimal.
pub fn decimal_text(n: u64) -> (s: String)
    ensures
        s@ == decimal(n as nat),
    decreases n,
{
    if n < 10 {
        let mut s = String::new();
        s.push((0x30 + n as u8) as char);
        proof {
            assert(s@ =~= seq![digit(n as nat)]);
        }
        s
    } else {
        let mut s = decimal_text(n / 10);
        s.push((0x30 + (n % 10) as u8) as char);
        s
    }
}

/// Whether `needle` stands in `s` at position `i`.
pub open spec fn stands_at(s: Seq<char>, needle: Seq<char>, i: int) -> bool {
    0 <= i && i + needle.len() <= s.len() && s.subrange(i, i + needle.len()) == needle
}

/// Whether `needle` occurs in `s`.
pub open spec fn occurs(s: Seq<char>, needle: Seq<char>) -> bool {
    exists|i: int| stands_at(s, needle, i)
}

/// Whether `needle` stands in `v` at position `i`.
pub fn stands_at_chars(v: &Vec<char>, needle: &Vec<char>, i: usize) -> (r: bool)
    ensures
        r == stands_at(v@, needle@, i as int),
{
    if i > v.len() || needle.len() > v.len() - i {
        return false;
    }
    let mut k: usize = 0;
    while k < needle.len()
        invariant
            k <= needle@.len(),
            i + needle@.len() <= v.len(),
            forall|j: int| 0 <= j < k ==> v@[i + j] == #[trigger] needle@[j],
        decreases needle@.len() - k,
    {
        if v[i + k] != needle[k] {
            assert(v@.subrange(i as int, i + needle@.len())[k as int] != needle@[k as int]);
            return false;
        }
        k += 1;
    }
    assert(v@.subrange(i as int, i + needle@.len()) =~= needle@);
    true
}

/// Whether `needle` occurs in `s`.
pub fn contains(s: &str, needle: &str) -> (r: bool)
    ensures
        r == occurs(s@, needle@),
{
    let v = chars_of(s);
    let n = chars_of(needle);
    let mut i: usize = 0;
    while i < v.len()
        invariant
            i <= v@.len(),
            v@ == s@,
            n@ == needle@,
            forall|j: int| 0 <= j < i ==> !#[trigger] stands_at(v@, n@, j),
        decreases v@.len() - i,
    {
        if stands_at_chars(&v, &n, i) {
            return true;
        }
        i += 1;
    }
    let r = stands_at_chars(&v, &n, i);
    proof {
        if !r {
            assert forall|j: int| !stands_at(v@, n@, j) by {}
        }
    }
    r
}

/// The first place from `i` on where a text stands in another.
pub open spec fn first_place(s: Seq<char>, needle: Seq<char>, i: int) -> Option<int>
    decreases s.len() - i + 1,
{
    if i < 0 || i + needle.len() > s.len() {
        None
    } else if stands_at(s, needle, i) {
        Some(i)
    } else {
        first_place(s, needle, i + 1)
    }
}

pub fn find_first(v: &Vec<char>, needle: &Vec<char>, from: usize) -> (r: Option<usize>)
    requires
        from <= v@.len(),
        needle@.len() > 0,
    ensures
        (match r {
            Some(i) => Some(i as int),
            None => None,
        }) == first_place(v@, needle@, from as int),
        r matches Some(i) ==> from <= i && i + needle@.len() <= v@.len(),
{
    let mut i: usize = from;
    while i < v.len()
        invariant
            from <= i <= v@.len(),
            needle@.len() > 0,
            first_place(v@, needle@, from as int) == first_place(v@, needle@, i as int),
        decreases v@.len() - i,
    {
        if stands_at_chars(v, needle, i) {
            return Some(i);
        }
        i = i + 1;
    }
    None
}

/// Whether `s` begins with `head`.
pub fn begins_with(s: &str, head: &str) -> (r: bool)
    ensures
        r == head@.is_prefix_of(s@),
{
    let v = chars_of(s);
    let h = chars_of(head);
    let r = stands_at_chars(&v, &h, 0);
    proof {
        if h@.len() <= v@.len() {
            assert(v@.subrange(0, h@.len() as int) =~= v@.take(h@.len() as int));
        }
    }
    r
}

/// An ASCII capital as its small letter; any other character as it is.
pub open spec fn lower_char(c: char) -> char {
    if 'A' <= c <= 'Z' {
        ((c as u8) + 32) as u8 as char
    } else {
        c
    }
}

/// A text with its ASCII capitals made small.
pub open spec fn lower(s: Seq<char>) -> Seq<char> {
    s.map_values(|c: char| lower_char(c))
}

pub fn to_lower_char(c: char) -> (r: char)
    ensures
        r == lower_char(c),
{
    if 'A' <= c && c <= 'Z' {
        ((c as u8) + 32) as char
    } else {
        c
    }
}

/// A text with its ASCII capitals made small.
pub fn to_lower(s: &str) -> (r: String)
    ensures
        r@ == lower(s@),
{
    let v = chars_of(s);
    let mut r = String::new();
    let mut i: usize = 0;
    while i < v.len()
        invariant
            i <= v@.len(),
            v@ == s@,
            r@ == lower(s@.take(i as int)),
        decreases v@.len() - i,
    {
        r.push(to_lower_char(v[i]));
        proof {
            assert(lower(s@.take(i + 1)) =~= lower(s@.take(i as int)).push(lower_char(v@[i as int])));
        }
        i += 1;
    }
    assert(s@.take(i as int) =~= s@);
    r
}

/// The pieces of `s` between the occurrences of `sep`; one more than there are of them.
pub open spec fn split(s: Seq<char>, sep: char) -> Seq<Seq<char>>
    decreases s.len(),
{
    if s.len() == 0 {
        seq![Seq::<char>::empty()]
    } else {
        let init = split(s.drop_last(), sep);
        if s.last() == sep {
            init.push(Seq::<char>::empty())
        } else {
            init.drop_last().push(init.last().push(s.last()))
        }
    }
}

pub proof fn lemma_split_nonempty(s: Seq<char>, sep: char)
    ensures
        split(s, sep).len() > 0,
    decreases s.len(),
{
    if s.len() > 0 {
        lemma_split_nonempty(s.drop_last(), sep);
    }
}

/// The pieces of a prefix are the first pieces of the whole, the last of them cut short.
pub proof fn lemma_split_prefix(s: Seq<char>, i: int, sep: char)
    requires
        0 <= i <= s.len(),
    ensures
        0 < split(s.take(i), sep).len() <= split(s, sep).len(),
        split(s.take(i), sep).last().is_prefix_of(
            split(s, sep)[split(s.take(i), sep).len() - 1],
        ),
    decreases s.len(),
{
    lemma_split_nonempty(s.take(i), sep);
    lemma_split_nonempty(s, sep);
    if i == s.len() {
        assert(s.take(i) =~= s);
    } else {
        assert(s.drop_last().take(i) =~= s.take(i));
        lemma_split_prefix(s.drop_last(), i, sep);
        let k = split(s.take(i), sep).len() - 1;
        let init = split(s.drop_last(), sep);
        let piece = split(s.take(i), sep).last();
        if s.last() != sep && k == init.len() - 1 {
            assert(init[k].is_prefix_of(split(s, sep)[k]));
            assert(piece =~= split(s, sep)[k].take(piece.len() as int));
        }
    }
}

/// The views of a list of texts.
pub open spec fn views(v: Seq<String>) -> Seq<Seq<char>> {
    v.map_values(|s: String| s@)
}

/// The pieces of `s` between the occurrences of `sep`.
pub fn split_text(s: &str, sep: char) -> (r: Vec<String>)
    ensures
        views(r@) == split(s@, sep),
        r@.len() > 0,
{
    let v = chars_of(s);
    let mut done: Vec<String> = Vec::new();
    let mut piece = String::new();
    let mut i: usize = 0;
    proof {
        assert(views(done@).push(piece@) =~= split(s@.take(0), sep));
    }
    while i < v.len()
        invariant
            i <= v@.len(),
            v@ == s@,
            views(done@).push(piece@) == split(s@.take(i as int), sep),
        decreases v@.len() - i,
    {
        let c = v[i];
        let ghost before = split(s@.take(i as int), sep);
        let ghost d0 = done@;
        let ghost p0 = piece@;
        proof {
            assert(s@.take(i + 1).drop_last() =~= s@.take(i as int));
            assert(views(d0).push(p0).drop_last() =~= views(d0));
        }
        if c == sep {
            done.push(piece);
            piece = String::new();
            proof {
                assert(views(done@) =~= views(d0).push(p0));
            }
        } else {
            piece.push(c);
        }
        i += 1;
    }
    let ghost d0 = done@;
    let ghost p0 = piece@;
    done.push(piece);
    proof {
        assert(s@.take(i as int) =~= s@);
        assert(views(done@) =~= views(d0).push(p0));
    }
    done
}

/// The texts one behind the other, with `sep` between each two.
pub open spec fn join(parts: Seq<Seq<char>>, sep: Seq<char>) -> Seq<char>
    decreases parts.len(),
{
    if parts.len() == 0 {
        Seq::empty()
    } else if parts.len() == 1 {
        parts[0]
    } else {
        join(parts.drop_last(), sep) + sep + parts.last()
    }
}

/// The texts one behind the other, with `sep` between each two.
pub fn join_texts(parts: &Vec<String>, sep: &str) -> (r: String)
    ensures
        r@ == join(views(parts@), sep@),
{
    let mut r = String::new();
    let mut i: usize = 0;
    while i < parts.len()
        invariant
            i <= parts@.len(),
            r@ == join(views(parts@).take(i as int), sep@),
        decreases parts@.len() - i,
    {
        let ghost done = views(parts@).take(i as int);
        let ghost more = views(parts@).take(i + 1);
        proof {
            assert(more.drop_last() =~= done);
        }
        if i > 0 {
            r.append(sep);
        }
        r.append(parts[i].as_str());
        proof {
            if i == 0 {
                assert(r@ =~= more[0]);
            } else {
                assert(r@ =~= join(done, sep@) + sep@ + more.last());
            }
        }
        i += 1;
    }
    proof {
        assert(views(parts@).take(i as int) =~= views(parts@));
    }
    r
}

/// The same character `n` times.
pub open spec fn repeated(c: char, n: nat) -> Seq<char> {
    Seq::new(n, |i: int| c)
}

pub fn repeat_char(c: char, n: usize) -> (r: String)
    ensures
        r@ == repeated(c, n as nat),
{
    let mut r = String::new();
    let mut i: usize = 0;
    while i < n
        invariant
            i <= n,
            r@ == repeated(c, i as nat),
        decreases n - i,
    {
        r.push(c);
        proof {
            assert(r@ =~= repeated(c, (i + 1) as nat));
        }
        i += 1;
    }
    r
}

/// Pads a text with blanks on the right to at least `width` characters.
pub open spec fn padded(s: Seq<char>, width: nat) -> Seq<char> {
    s + repeated(' ', if s.len() < width { (width - s.len()) as nat } else { 0 })
}

pub fn pad_right(s: &str, width: usize) -> (r: String)
    ensures
        r@ == padded(s@, width as nat),
{
    let v = chars_of(s);
    let mut r = s.to_owned();
    if v.len() < width {
        r.append(repeat_char(' ', width - v.len()).as_str());
    } else {
        proof {
            assert(r@ =~= padded(s@, width as nat));
        }
    }
    r
}

pub proof fn lemma_index_at_byte_monotonic(s: Seq<char>, a: int, b: int)
    requires
        a <= b,
    ensures
        index_at_byte(s, a) <= index_at_byte(s, b),
    decreases s.len(),
{
    if s.len() > 0 {
        lemma_index_at_byte_monotonic(s.drop_last(), a, b);
        lemma_index_at_byte_range(s.drop_last(), a);
    }
}

/// The number of bytes of a character's UTF-8 encoding.
pub fn utf8_len(c: char) -> (n: usize)
    ensures
        n == utf8_width(c),
{
    let v: u32 = c as u32;
    if v < 0x80 {
        1
    } else if v < 0x800 {
        2
    } else if v < 0x10000 {
        3
    } else {
        4
    }
}

/// The number of characters before byte offset `bytes`, where it falls between two characters.
pub fn char_index(v: &Vec<char>, bytes: usize) -> (r: Option<usize>)
    ensures
        r is Some <==> is_boundary(v@, bytes as int),
        r matches Some(i) ==> i == index_at_byte(v@, bytes as int),
{
    let mut i: usize = 0;
    let mut left: usize = bytes;
    proof {
        assert(v@.take(0) =~= Seq::<char>::empty());
    }
    while i < v.len()
        invariant
            i <= v@.len(),
            left <= bytes,
            byte_len(v@.take(i as int)) == bytes - left,
        decreases v@.len() - i,
    {
        if left == 0 {
            proof {
                lemma_index_at_byte(v@, i as int);
            }
            return Some(i);
        }
        let w: usize = utf8_len(v[i]);
        proof {
            lemma_byte_len_take(v@, i as int);
        }
        if w > left {
            proof {
                lemma_between_boundaries(v@, i as int, bytes as int);
            }
            return None;
        }
        left -= w;
        i += 1;
    }
    proof {
        assert(v@.take(i as int) =~= v@);
        lemma_index_at_byte(v@, i as int);
        if left > 0 {
            assert(index_at_byte(v@, bytes as int) == v@.len());
        }
    }
    if left == 0 {
        Some(i)
    } else {
        None
    }
}

proof fn lemma_between_boundaries(s: Seq<char>, i: int, bytes: int)
    requires
        0 <= i < s.len(),
        byte_len(s.take(i)) < bytes < byte_len(s.take(i + 1)),
    ensures
        !is_boundary(s, bytes),
{
    let k = index_at_byte(s, bytes) as int;
    lemma_index_at_byte_range(s, bytes);
    if byte_len(s.take(k)) == bytes {
        if k <= i {
            lemma_take_monotonic(s, k, i);
        } else {
            lemma_take_monotonic(s, i + 1, k);
        }
    }
}

/// A longer prefix has no fewer bytes.
pub proof fn lemma_take_monotonic(s: Seq<char>, i: int, j: int)
    requires
        0 <= i <= j <= s.len(),
    ensures
        byte_len(s.take(i)) <= byte_len(s.take(j)),
{
    assert(s.take(j).take(i) =~= s.take(i));
    lemma_byte_len_take(s.take(j), i);
}

/// Two texts, one behind the other.
pub fn cat2(a: &str, b: &str) -> (r: String)
    ensures
        r@ == a@ + b@,
{
    let mut r = a.to_owned();
    r.append(b);
    r
}

/// Three texts, one behind the other.
pub fn cat3(a: &str, b: &str, c: &str) -> (r: String)
    ensures
        r@ == a@ + b@ + c@,
{
    let mut r = a.to_owned();
    r.append(b);
    r.append(c);
    r
}

/// Four texts, one behind the other.
pub fn cat4(a: &str, b: &str, c: &str, d: &str) -> (r: String)
    ensures
        r@ == a@ + b@ + c@ + d@,
{
    let mut r = a.to_owned();
    r.append(b);
    r.append(c);
    r.append(d);
    r
}

/// Five texts, one behind the other.
pub fn cat5(a: &str, b: &str, c: &str, d: &str, e: &str) -> (r: String)
    ensures
        r@ == a@ + b@ + c@ + d@ + e@,
{
    let mut r = a.to_owned();
    r.append(b);
    r.append(c);
    r.append(d);
    r.append(e);
    r
}

/// Six texts, one behind the other.
pub fn cat6(a: &str, b: &str, c: &str, d: &str, e: &str, f: &str) -> (r: String)
    ensures
        r@ == a@ + b@ + c@ + d@ + e@ + f@,
{
    let mut r = a.to_owned();
    r.append(b);
    r.append(c);
    r.append(d);
    r.append(e);
    r.append(f);
    r
}

/// Seven texts, one behind the other.
pub fn cat7(a: &str, b: &str, c: &str, d: &str, e: &str, f: &str, g: &str) -> (r: String)
    ensures
        r@ == a@ + b@ + c@ + d@ + e@ + f@ + g@,
{
    let mut r = a.to_owned();
    r.append(b);
    r.append(c);
    r.append(d);
    r.append(e);
    r.append(f);
    r.append(g);
    r
}

proof fn lemma_trim_end_parts(s: Seq<char>)
    ensures
        trim_end(s).is_prefix_of(s),
        forall|i: int| trim_end(s).len() <= i < s.len() ==> is_space(#[trigger] s[i]),
        trim_end(s).len() > 0 ==> !is_space(trim_end(s).last()),
    decreases s.len(),
{
    if s.len() > 0 && is_space(s.last()) {
        let init = s.drop_last();
        lemma_trim_end_parts(init);
        assert(trim_end(s) =~= s.subrange(0, trim_end(s).len() as int));
        assert forall|i: int| trim_end(s).len() <= i < s.len() implies is_space(#[trigger] s[i]) by {
            if i < init.len() {
                assert(init[i] == s[i]);
            }
        }
    } else {
        assert(s =~= s.subrange(0, s.len() as int));
    }
}

proof fn lemma_trim_start_parts(s: Seq<char>)
    ensures
        trim_start(s).len() <= s.len(),
        trim_start(s) == s.skip(s.len() - trim_start(s).len()),
        forall|i: int| 0 <= i < s.len() - trim_start(s).len() ==> is_space(#[trigger] s[i]),
        trim_start(s).len() > 0 ==> !is_space(trim_start(s)[0]),
    decreases s.len(),
{
    if s.len() > 0 && is_space(s[0]) {
        let rest = s.drop_first();
        lemma_trim_start_parts(rest);
        assert(trim_start(s) =~= s.skip(s.len() - trim_start(s).len()));
        assert forall|i: int| 0 <= i < s.len() - trim_start(s).len() implies is_space(
            #[trigger] s[i],
        ) by {
            if i > 0 {
                assert(rest[i - 1] == s[i]);
            }
        }
    } else {
        assert(trim_start(s) =~= s.skip(0));
    }
}

/// A trimmed text is the text but for white space at either end, all of it: what it begins and
/// ends with is none.
pub proof fn trimming_takes_the_white_space_at_the_ends(s: Seq<char>) -> (from: int)
    ensures
        0 <= from <= from + trimmed(s).len() <= s.len(),
        trimmed(s) == s.subrange(from, from + trimmed(s).len()),
        forall|i: int| 0 <= i < from ==> is_space(#[trigger] s[i]),
        forall|i: int| from + trimmed(s).len() <= i < s.len() ==> is_space(#[trigger] s[i]),
        trimmed(s).len() > 0 ==> !is_space(trimmed(s)[0]) && !is_space(trimmed(s).last()),
{
    let front = trim_start(s);
    lemma_trim_start_parts(s);
    lemma_trim_end_parts(front);
    let from = s.len() - front.len();
    let t = trimmed(s);
    assert(t == front.subrange(0, t.len() as int));
    assert(t =~= s.subrange(from, from + t.len()));
    assert forall|i: int| from + t.len() <= i < s.len() implies is_space(#[trigger] s[i]) by {
        assert(front[i - from] == s[i]);
    }
    if t.len() > 0 {
        assert(t[0] == front[0]);
    }
    from
}

proof fn lemma_join_push(parts: Seq<Seq<char>>, last: Seq<char>, sep: Seq<char>)
    requires
        parts.len() > 0,
    ensures
        join(parts.push(last), sep) == join(parts, sep) + sep + last,
{
    assert(parts.push(last).drop_last() =~= parts);
}

/// The pieces of a text, joined with what they were split at, give the text again, and none of
/// them holds it.
pub proof fn joining_undoes_splitting(s: Seq<char>, sep: char)
    ensures
        join(split(s, sep), seq![sep]) == s,
        forall|k: int|
            0 <= k < split(s, sep).len() ==> !(#[trigger] split(s, sep)[k]).contains(sep),
        split(s, sep).len() == s.filter(|c: char| c == sep).len() + 1,
    decreases s.len(),
{
    let is_sep = |c: char| c == sep;
    reveal(Seq::filter);
    if s.len() > 0 {
        let front = s.drop_last();
        joining_undoes_splitting(front, sep);
        lemma_split_nonempty(front, sep);
        let init = split(front, sep);
        let now = split(s, sep);
        assert(front.filter(|c: char| c == sep) == front.filter(is_sep));
        assert(s.filter(is_sep) == if is_sep(s.last()) {
            front.filter(is_sep).push(s.last())
        } else {
            front.filter(is_sep)
        });
        if s.last() == sep {
            lemma_join_push(init, Seq::empty(), seq![sep]);
            assert(join(now, seq![sep]) =~= s);
        } else {
            let grown = init.last().push(s.last());
            let before = init.drop_last();
            if before.len() > 0 {
                lemma_join_push(before, grown, seq![sep]);
                lemma_join_push(before, init.last(), seq![sep]);
                assert(before.push(init.last()) =~= init);
                assert(join(init, seq![sep]) == join(before, seq![sep]) + seq![sep] + init.last());
                assert(now =~= before.push(grown));
                assert(join(before, seq![sep]) + seq![sep] + grown =~= front.push(s.last()));
            } else {
                assert(now.len() == 1 && now[0] == grown);
                assert(init.len() == 1 && init[0] == front);
                assert(join(now, seq![sep]) == grown);
            }
            assert(front.push(s.last()) =~= s);
            assert(join(now, seq![sep]) =~= s);
        }
        assert forall|k: int| 0 <= k < now.len() implies !(#[trigger] now[k]).contains(sep) by {
            if now[k].contains(sep) {
                let i = choose|i: int| 0 <= i < now[k].len() && now[k][i] == sep;
                if s.last() == sep {
                    if k < init.len() {
                        assert(init[k].contains(sep));
                    }
                } else if k < init.len() - 1 {
                    assert(init[k].contains(sep));
                } else if i < init[k].len() {
                    assert(init[k][i] == sep);
                    assert(init[k].contains(sep));
                }
            }
        }
    } else {
        assert(!split(s, sep)[0].contains(sep));
    }
}

/// The first place of a text in another is one where it stands, and it stands nowhere before
/// it; where there is none it does not occur.
pub proof fn first_places_come_first(s: Seq<char>, needle: Seq<char>, i: int)
    requires
        0 <= i,
    ensures
        first_place(s, needle, i) matches Some(p) ==> i <= p && stands_at(s, needle, p) && (forall|
            k: int,
        |
            i <= k < p ==> !#[trigger] stands_at(s, needle, k)),
        first_place(s, needle, i) is None ==> (forall|k: int|
            i <= k ==> !#[trigger] stands_at(s, needle, k)),
    decreases s.len() - i + 1,
{
    if i + needle.len() <= s.len() && !stands_at(s, needle, i) {
        first_places_come_first(s, needle, i + 1);
    }
}

proof fn lemma_digit(d: nat)
    requires
        d < 10,
    ensures
        digit(d) as u32 == 0x30 + d,
{
    let x = (0x30 + d) as u8;
    assert(x as char as u32 == x as u32);
}

/// Different numbers are written differently, with digits only, and none but nought begins with
/// a nought.
pub proof fn numbers_are_written_apart(a: nat, b: nat)
    ensures
        decimal(a) == decimal(b) ==> a == b,
        decimal(a).len() > 0,
        forall|i: int| 0 <= i < decimal(a).len() ==> '0' <= #[trigger] decimal(a)[i] <= '9',
        a > 0 ==> decimal(a)[0] != '0',
    decreases a,
{
    if a >= 10 {
        numbers_are_written_apart(a / 10, b / 10);
        lemma_digit(a % 10);
        assert forall|i: int| 0 <= i < decimal(a).len() implies '0' <= #[trigger] decimal(a)[i]
            <= '9' by {
            if i < decimal(a / 10).len() {
                assert(decimal(a)[i] == decimal(a / 10)[i]);
            }
        }
        assert(decimal(a)[0] == decimal(a / 10)[0]);
    } else {
        lemma_digit(a);
    }
    lemma_decimal_nonempty(b / 10);
    lemma_decimal_nonempty(a / 10);
    if decimal(a) == decimal(b) {
        if a >= 10 && b >= 10 {
            assert(decimal(a).drop_last() =~= decimal(a / 10));
            assert(decimal(b).drop_last() =~= decimal(b / 10));
            lemma_digit(b % 10);
            assert(decimal(a).last() == decimal(b).last());
        } else if a < 10 && b < 10 {
            lemma_digit(b);
            assert(decimal(a)[0] == decimal(b)[0]);
        } else if a >= 10 {
            assert(decimal(a).len() == decimal(a / 10).len() + 1);
            assert(decimal(b).len() == 1);
        } else {
            assert(decimal(b).len() == decimal(b / 10).len() + 1);
            assert(decimal(a).len() == 1);
        }
    }
}

proof fn lemma_decimal_nonempty(n: nat)
    ensures
        decimal(n).len() > 0,
{
}

/// Making letters small changes only capitals, keeps the length, and makes no difference the
/// second time.
pub proof fn small_letters_stay_small(s: Seq<char>)
    ensures
        lower(s).len() == s.len(),
        forall|i: int|
            0 <= i < s.len() && !('A' <= #[trigger] s[i] <= 'Z') ==> lower(s)[i] == s[i],
        forall|i: int|
            0 <= i < s.len() && 'A' <= #[trigger] s[i] <= 'Z' ==> lower(s)[i] as u32 == s[i] as u32
                + 32,
        lower(lower(s)) == lower(s),
{
    assert forall|i: int| 0 <= i < s.len() && 'A' <= #[trigger] s[i] <= 'Z' implies lower(s)[i] as u32
        == s[i] as u32 + 32 by {
        let x = ((s[i] as u8) + 32) as u8;
        assert(x as char as u32 == x as u32);
    }
    assert(lower(lower(s)) =~= lower(s)) by {
        assert forall|i: int| 0 <= i < s.len() implies #[trigger] lower(lower(s))[i]
            == lower(s)[i] by {
            if 'A' <= s[i] <= 'Z' {
                assert(lower(s)[i] as u32 == s[i] as u32 + 32);
            }
        }
    }
}

} // verus!
