//! Text as sequences of characters: conversions between `String` and `Vec<char>`, and the small
//! vocabulary of searches and predicates that the parsers of this crate are stated in.

use vstd::prelude::*;

verus! {

/// Whether Unicode classes `c` as alphanumeric, as `char::is_alphanumeric` decides it.
pub uninterp spec fn alphanumeric(c: char) -> bool;

/// Whether Unicode classes `c` as alphabetic, as `char::is_alphabetic` decides it.
pub uninterp spec fn alphabetic(c: char) -> bool;

/// What `str::to_lowercase` gives for a text.
pub uninterp spec fn unicode_lowercase(s: Seq<char>) -> Seq<char>;

/// An ASCII digit.
pub open spec fn digit(c: char) -> bool {
    '0' <= c && c <= '9'
}

/// An ASCII letter.
pub open spec fn ascii_letter(c: char) -> bool {
    ('a' <= c && c <= 'z') || ('A' <= c && c <= 'Z')
}

/// `c` with an ASCII upper case letter turned into its lower case form.
pub open spec fn ascii_lower(c: char) -> char {
    if 'A' <= c && c <= 'Z' {
        (c as u32 + 32) as char
    } else {
        c
    }
}

/// Every character of `s` is ASCII.
pub open spec fn ascii(s: Seq<char>) -> bool {
    forall|i: int| 0 <= i < s.len() ==> (#[trigger] s[i]) as u32 <= 127
}

/// `char::is_alphanumeric` (std): what it returns depends on the character alone, and on an ASCII
/// character it is true exactly of letters and digits.
pub assume_specification[ char::is_alphanumeric ](c: char) -> (b: bool)
    ensures
        b == alphanumeric(c),
        (c as u32) <= 127 ==> b == (ascii_letter(c) || digit(c)),
;

/// `char::is_alphabetic` (std): what it returns depends on the character alone, and on an ASCII
/// character it is true exactly of letters.
pub assume_specification[ char::is_alphabetic ](c: char) -> (b: bool)
    ensures
        b == alphabetic(c),
        (c as u32) <= 127 ==> b == ascii_letter(c),
;

/// `str::to_lowercase` (std): what it returns depends on the text alone, and on an ASCII text each
/// upper case letter is replaced by its lower case form and nothing else changes.
pub assume_specification[ str::to_lowercase ](s: &str) -> (r: String)
    ensures
        r@ == unicode_lowercase(s@),
        ascii(s@) ==> r@ == ascii_lowercase(s@),
;

/// The lowercase form of a text: letter by letter where all of it is ASCII, and else as Unicode
/// has it.
pub open spec fn lowercase(s: Seq<char>) -> Seq<char> {
    if ascii(s) {
        ascii_lowercase(s)
    } else {
        unicode_lowercase(s)
    }
}

/// `String::push` (std): appends one character.
pub assume_specification[ String::push ](s: &mut String, c: char)
    ensures
        final(s)@ == old(s)@.push(c),
;

/// The characters of a text.
pub fn chars_of(s: &str) -> (r: Vec<char>)
    ensures
        r@ == s@,
{
    let mut out: Vec<char> = Vec::new();
    for c in it: s.chars()
        invariant
            it.seq() == s@,
            out@ == s@.subrange(0, it.index()),
    {
        out.push(c);
    }
    out
}

/// The text made of the characters `from..to` of `v`.
pub fn string_of(v: &[char], from: usize, to: usize) -> (r: String)
    requires
        from <= to <= v@.len(),
    ensures
        r@ == v@.subrange(from as int, to as int),
{
    let mut out = String::new();
    let mut i: usize = from;
    while i < to
        invariant
            from <= i <= to <= v@.len(),
            out@ == v@.subrange(from as int, i as int),
        decreases to - i,
    {
        out.push(v[i]);
        i += 1;
    }
    out
}

/// Whether two character slices hold the same text.
pub fn same_chars(a: &[char], b: &[char]) -> (r: bool)
    ensures
        r == (a@ == b@),
{
    if a.len() != b.len() {
        return false;
    }
    let mut i: usize = 0;
    while i < a.len()
        invariant
            i <= a@.len() == b@.len(),
            forall|j: int| 0 <= j < i ==> a@[j] == b@[j],
        decreases a@.len() - i,
    {
        if a[i] != b[i] {
            assert(a@[i as int] != b@[i as int]);
            return false;
        }
        i += 1;
    }
    assert(a@ =~= b@);
    true
}

/// Whether two texts are the same.
pub fn same_text(a: &str, b: &str) -> (r: bool)
    ensures
        r == (a@ == b@),
{
    let x = chars_of(a);
    let y = chars_of(b);
    same_chars(x.as_slice(), y.as_slice())
}

/// Three texts one after another.
pub fn join3(a: &str, b: &str, c: &str) -> (r: String)
    ensures
        r@ == a@ + b@ + c@,
{
    let mut out = a.to_owned();
    out.append(b);
    out.append(c);
    out
}

/// The decimal digit of a value below ten.
pub open spec fn digit_char(d: int) -> char {
    ('0' as u32 + d) as char
}

/// A number written in decimal, without leading zeros.
pub open spec fn decimal(n: nat) -> Seq<char>
    decreases n,
{
    if n < 10 {
        seq![digit_char(n as int)]
    } else {
        decimal(n / 10).push(digit_char(n as int % 10))
    }
}

/// The decimal digit of a value below ten.
pub fn digit_of(d: u8) -> (c: char)
    requires
        d < 10,
    ensures
        c == digit_char(d as int),
{
    (48u8 + d) as char
}

/// A number written in decimal.
pub fn decimal_text(n: u64) -> (r: String)
    ensures
        r@ == decimal(n as nat),
    decreases n,
{
    let mut out = if n < 10 {
        String::new()
    } else {
        decimal_text(n / 10)
    };
    out.push(digit_of((n % 10) as u8));
    assert(n < 10 ==> out@ =~= seq![digit_char(n as int)]);
    out
}

/// A text between quotation marks with what needs it escaped, as `{:?}` writes a `str`.
pub uninterp spec fn quoted(s: Seq<char>) -> Seq<char>;

/// A character that `{:?}` writes unchanged inside quotation marks.
pub open spec fn plain_char(c: char) -> bool {
    ascii_letter(c) || digit(c) || c == '_'
}

/// `<str as Debug>::fmt` (std), through `format!`: what it writes depends on the text alone, and a
/// text of ASCII letters, digits and underscores is put between quotation marks as it is.
#[verifier::external_body]
pub(crate) fn quote(s: &str) -> (r: String)
    ensures
        r@ == quoted(s@),
        (forall|i: int| 0 <= i < s@.len() ==> plain_char(#[trigger] s@[i])) ==> r@ == seq!['"'] + s@
            + seq!['"'],
{
    format!("{:?}", s)
}

/// Unicode white space.
pub open spec fn white(c: char) -> bool {
    let u = c as u32;
    (9 <= u <= 13) || u == 32 || u == 0x85 || u == 0xa0 || u == 0x1680 || (0x2000 <= u <= 0x200a)
        || u == 0x2028 || u == 0x2029 || u == 0x202f || u == 0x205f || u == 0x3000
}

/// Whether a character is white space.
pub fn is_white(c: char) -> (r: bool)
    ensures
        r == white(c),
{
    let u: u32 = c as u32;
    (9 <= u && u <= 13) || u == 32 || u == 0x85 || u == 0xa0 || u == 0x1680 || (0x2000 <= u && u
        <= 0x200a) || u == 0x2028 || u == 0x2029 || u == 0x202f || u == 0x205f || u == 0x3000
}

/// A text without white space at its start.
pub open spec fn trimmed_start(s: Seq<char>) -> Seq<char>
    decreases s.len(),
{
    if s.len() > 0 && white(s[0]) {
        trimmed_start(s.subrange(1, s.len() as int))
    } else {
        s
    }
}

/// A text without white space at its end.
pub open spec fn trimmed_end(s: Seq<char>) -> Seq<char>
    decreases s.len(),
{
    if s.len() > 0 && white(s.last()) {
        trimmed_end(s.drop_last())
    } else {
        s
    }
}

/// A text without white space around it.
pub open spec fn trimmed(s: Seq<char>) -> Seq<char> {
    trimmed_end(trimmed_start(s))
}

/// Where a text starts once white space in front of it is left out.
pub fn start_of_text(v: &[char]) -> (r: usize)
    ensures
        r <= v@.len(),
        v@.subrange(r as int, v@.len() as int) == trimmed_start(v@),
{
    let mut i: usize = 0;
    assert(v@.subrange(0, v@.len() as int) =~= v@);
    while i < v.len() && is_white(v[i])
        invariant
            i <= v@.len(),
            trimmed_start(v@.subrange(i as int, v@.len() as int)) == trimmed_start(v@),
        decreases v@.len() - i,
    {
        assert(v@.subrange(i as int, v@.len() as int).subrange(1, v@.len() - i)
            =~= v@.subrange(i + 1, v@.len() as int));
        i += 1;
    }
    i
}

/// Where a text that starts at `from` ends once white space behind it is left out.
pub fn end_of_text(v: &[char], from: usize) -> (r: usize)
    requires
        from <= v@.len(),
    ensures
        from <= r <= v@.len(),
        v@.subrange(from as int, r as int) == trimmed_end(v@.subrange(from as int, v@.len() as int)),
{
    let mut i: usize = v.len();
    while i > from && is_white(v[i - 1])
        invariant
            from <= i <= v@.len(),
            trimmed_end(v@.subrange(from as int, i as int)) == trimmed_end(
                v@.subrange(from as int, v@.len() as int),
            ),
        decreases i,
    {
        assert(v@.subrange(from as int, i as int).drop_last() =~= v@.subrange(from as int, i - 1));
        i -= 1;
    }
    i
}

/// Leaves out white space around a text.
pub fn trim(s: &str) -> (r: String)
    ensures
        r@ == trimmed(s@),
{
    let v = chars_of(s);
    let from: usize = start_of_text(v.as_slice());
    let to: usize = end_of_text(v.as_slice(), from);
    string_of(v.as_slice(), from, to)
}

/// Whether a text has more than white space in it.
pub fn is_blank(s: &str) -> (r: bool)
    ensures
        r == (trimmed(s@).len() == 0),
{
    let t = trim(s);
    t.as_str().is_empty()
}

/// The end of the white space that starts at `pos`.
pub open spec fn white_end(s: Seq<char>, pos: int) -> int
    decreases s.len() - pos,
{
    if 0 <= pos < s.len() && white(s[pos]) {
        white_end(s, pos + 1)
    } else {
        pos
    }
}

/// The end of the run without white space that starts at `pos`.
pub open spec fn ink_end(s: Seq<char>, pos: int) -> int
    decreases s.len() - pos,
{
    if 0 <= pos < s.len() && !white(s[pos]) {
        ink_end(s, pos + 1)
    } else {
        pos
    }
}

/// The runs of white space and of other characters end within the text.
pub proof fn lemma_white_ends(s: Seq<char>, pos: int)
    requires
        0 <= pos <= s.len(),
    ensures
        pos <= white_end(s, pos) <= s.len(),
        pos <= ink_end(s, pos) <= s.len(),
        white_end(s, pos) < s.len() ==> !white(s[white_end(s, pos)]),
        pos < s.len() && !white(s[pos]) ==> ink_end(s, pos) > pos,
    decreases s.len() - pos,
{
    if pos < s.len() {
        lemma_white_ends(s, pos + 1);
    }
}

/// The words of a text from `pos` on, which white space separates.
pub open spec fn words_from(s: Seq<char>, pos: int) -> Seq<Seq<char>>
    decreases s.len() - pos,
{
    if !(0 <= pos <= s.len()) {
        Seq::empty()
    } else {
        let a = white_end(s, pos);
        let b = ink_end(s, a);
        proof {
            lemma_white_ends(s, pos);
            if a <= s.len() {
                lemma_white_ends(s, a);
            }
        }
        if a >= s.len() {
            Seq::empty()
        } else {
            seq![s.subrange(a, b)] + words_from(s, b)
        }
    }
}

/// The words of a text.
pub open spec fn words(s: Seq<char>) -> Seq<Seq<char>> {
    words_from(s, 0)
}

/// The texts in a list.
pub open spec fn texts(v: Seq<String>) -> Seq<Seq<char>> {
    v.map_values(|s: String| s@)
}

/// Splits a text into its words.
pub fn split_words(s: &str) -> (r: Vec<String>)
    ensures
        texts(r@) == words(s@),
{
    let v = chars_of(s);
    let mut out: Vec<String> = Vec::new();
    let mut pos: usize = 0;
    assert(texts(out@) + words_from(s@, 0) =~= words(s@));
    loop
        invariant
            v@ == s@,
            pos <= v@.len(),
            texts(out@) + words_from(s@, pos as int) == words(s@),
        decreases v@.len() - pos,
    {
        let ghost before = pos as int;
        proof {
            lemma_white_ends(s@, before);
            lemma_white_ends(s@, white_end(s@, before));
        }
        while pos < v.len() && is_white(v[pos])
            invariant
                v@ == s@,
                before <= pos <= v@.len(),
                white_end(s@, pos as int) == white_end(s@, before),
            decreases v@.len() - pos,
        {
            pos += 1;
        }
        if pos >= v.len() {
            assert(texts(out@) + Seq::<Seq<char>>::empty() =~= texts(out@));
            return out;
        }
        let start: usize = pos;
        while pos < v.len() && !is_white(v[pos])
            invariant
                v@ == s@,
                start <= pos <= v@.len(),
                ink_end(s@, pos as int) == ink_end(s@, start as int),
            decreases v@.len() - pos,
        {
            pos += 1;
        }
        let word = string_of(v.as_slice(), start, pos);
        let ghost done = out@;
        out.push(word);
        proof {
            assert(texts(out@) =~= texts(done).push(word@));
            assert(texts(done) + (seq![word@] + words_from(s@, pos as int)) =~= texts(out@)
                + words_from(s@, pos as int));
        }
    }
}

/// Whether a text starts with another.
pub open spec fn starts(s: Seq<char>, p: Seq<char>) -> bool {
    p.len() <= s.len() && s.subrange(0, p.len() as int) == p
}

/// Whether `p` stands in `s` at `pos`.
pub open spec fn stands_at(s: Seq<char>, p: Seq<char>, pos: int) -> bool {
    0 <= pos && pos + p.len() <= s.len() && s.subrange(pos, pos + p.len()) == p
}

/// The first place from `pos` on at which `p` stands in `s`.
pub open spec fn find_from(s: Seq<char>, p: Seq<char>, pos: int) -> Option<int>
    decreases s.len() - pos,
{
    if !(0 <= pos <= s.len()) {
        None
    } else if stands_at(s, p, pos) {
        Some(pos)
    } else if pos == s.len() {
        None
    } else {
        find_from(s, p, pos + 1)
    }
}

/// Whether `p` stands somewhere in `s`.
pub open spec fn contains(s: Seq<char>, p: Seq<char>) -> bool {
    find_from(s, p, 0) is Some
}

/// A search finds a place exactly where there is one, and the first.
pub proof fn lemma_find(s: Seq<char>, p: Seq<char>, pos: int)
    requires
        0 <= pos <= s.len(),
    ensures
        match find_from(s, p, pos) {
            Some(i) => pos <= i <= s.len() && stands_at(s, p, i) && forall|j: int|
                pos <= j < i ==> !#[trigger] stands_at(s, p, j),
            None => forall|j: int| pos <= j ==> !#[trigger] stands_at(s, p, j),
        },
    decreases s.len() - pos,
{
    if !stands_at(s, p, pos) && pos < s.len() {
        lemma_find(s, p, pos + 1);
    }
}

/// Whether `p` stands in `v` at `pos`.
pub fn stands(v: &[char], p: &[char], pos: usize) -> (r: bool)
    requires
        pos <= v@.len(),
    ensures
        r == stands_at(v@, p@, pos as int),
{
    if p.len() > v.len() - pos {
        return false;
    }
    let n: usize = v.len();
    let mut i: usize = 0;
    while i < p.len()
        invariant
            i <= p@.len(),
            pos + p@.len() <= v@.len() == n,
            forall|j: int| 0 <= j < i ==> v@[pos + j] == p@[j],
        decreases p@.len() - i,
    {
        if v[pos + i] != p[i] {
            assert(v@.subrange(pos as int, pos + p@.len())[i as int] != p@[i as int]);
            return false;
        }
        i += 1;
    }
    assert(v@.subrange(pos as int, pos + p@.len()) =~= p@);
    true
}

/// The first place from `pos` on at which `p` stands in `v`.
pub fn find(v: &[char], p: &[char], pos: usize) -> (r: Option<usize>)
    requires
        pos <= v@.len(),
    ensures
        match r {
            Some(i) => find_from(v@, p@, pos as int) == Some(i as int) && i + p@.len() <= v@.len(),
            None => find_from(v@, p@, pos as int) is None,
        },
{
    let mut i: usize = pos;
    loop
        invariant
            pos <= i <= v@.len(),
            find_from(v@, p@, i as int) == find_from(v@, p@, pos as int),
        decreases v@.len() - i,
    {
        if stands(v, p, i) {
            return Some(i);
        }
        if i == v.len() {
            return None;
        }
        i += 1;
    }
}

/// Whether `p` stands somewhere in `s`.
pub fn contains_text(s: &str, p: &str) -> (r: bool)
    ensures
        r == contains(s@, p@),
{
    let v = chars_of(s);
    let w = chars_of(p);
    find(v.as_slice(), w.as_slice(), 0).is_some()
}

/// Whether `s` starts with `p`.
pub fn starts_with(s: &str, p: &str) -> (r: bool)
    ensures
        r == starts(s@, p@),
{
    let v = chars_of(s);
    let w = chars_of(p);
    stands(v.as_slice(), w.as_slice(), 0)
}

/// The number that digits from `pos` on make behind what `value` has of it.
pub open spec fn digits_value(s: Seq<char>) -> nat
    decreases s.len(),
{
    if s.len() == 0 {
        0
    } else {
        (digits_value(s.drop_last()) * 10 + (s.last() as u32 - '0' as u32)) as nat
    }
}

/// Every character is a digit, and there is at least one.
pub open spec fn all_digits(s: Seq<char>) -> bool {
    s.len() > 0 && forall|i: int| 0 <= i < s.len() ==> digit(#[trigger] s[i])
}

/// A decimal number with an optional plus sign, where it is no more than `max`.
pub open spec fn number_in(s: Seq<char>, max: nat) -> Option<nat> {
    let d = if s.len() > 0 && s[0] == '+' {
        s.subrange(1, s.len() as int)
    } else {
        s
    };
    if all_digits(d) && digits_value(d) <= max {
        Some(digits_value(d))
    } else {
        None
    }
}

proof fn lemma_digits_grow(s: Seq<char>, n: int)
    requires
        0 <= n <= s.len(),
        forall|i: int| 0 <= i < s.len() ==> digit(#[trigger] s[i]),
    ensures
        digits_value(s.subrange(0, n)) <= digits_value(s),
    decreases s.len(),
{
    if n == s.len() {
        assert(s.subrange(0, n) =~= s);
    } else {
        assert(s.drop_last().subrange(0, n) =~= s.subrange(0, n));
        lemma_digits_grow(s.drop_last(), n);
        assert(digit(s.last()));
    }
}

/// Reads a decimal number no greater than `max`.
pub fn parse_number(s: &str, max: u64) -> (r: Option<u64>)
    requires
        max <= 0xffff_ffff,
    ensures
        match r {
            Some(n) => number_in(s@, max as nat) == Some(n as nat),
            None => number_in(s@, max as nat) is None,
        },
{
    let v = chars_of(s);
    let start: usize = if v.len() > 0 && v[0] == '+' {
        1
    } else {
        0
    };
    let ghost d = s@.subrange(start as int, s@.len() as int);
    proof {
        if start == 0 {
            assert(d =~= s@);
        }
    }
    if start >= v.len() {
        return None;
    }
    let mut value: u64 = 0;
    let mut i: usize = start;
    while i < v.len()
        invariant
            v@ == s@,
            start <= i <= v@.len(),
            start < v@.len(),
            d == s@.subrange(start as int, s@.len() as int),
            number_in(s@, max as nat) == (if all_digits(d) && digits_value(d) <= max {
                Some(digits_value(d))
            } else {
                None
            }),
            max <= 0xffff_ffff,
            value <= max,
            value == digits_value(d.subrange(0, i - start)),
            forall|k: int| start <= k < i ==> digit(#[trigger] s@[k]),
        decreases v@.len() - i,
    {
        let c: char = v[i];
        if !(c >= '0' && c <= '9') {
            proof {
                assert(d[i - start] == c);
            }
            return None;
        }
        value = value * 10 + (c as u32 - 48) as u64;
        proof {
            assert(d.subrange(0, i + 1 - start).drop_last() =~= d.subrange(0, i - start));
            if value > max && all_digits(d) {
                lemma_digits_grow(d, i + 1 - start);
            }
        }
        if value > max {
            return None;
        }
        i += 1;
    }
    proof {
        assert(d.subrange(0, i - start) =~= d);
        assert forall|k: int| 0 <= k < d.len() implies digit(#[trigger] d[k]) by {
            assert(digit(s@[start + k]));
        }
    }
    Some(value)
}

/// A text with its ASCII letters in lower case.
pub open spec fn ascii_lowercase(s: Seq<char>) -> Seq<char> {
    s.map_values(|c: char| ascii_lower(c))
}

/// A character with an ASCII upper case letter turned into its lower case form.
pub fn lower_char(c: char) -> (r: char)
    ensures
        r == ascii_lower(c),
{
    if c >= 'A' && c <= 'Z' {
        ((c as u32 as u8) + 32) as char
    } else {
        c
    }
}

/// A text with its ASCII letters in lower case.
pub fn lower_ascii(s: &str) -> (r: String)
    ensures
        r@ == ascii_lowercase(s@),
{
    let v = chars_of(s);
    let mut out = String::new();
    let mut i: usize = 0;
    assert(out@ =~= ascii_lowercase(s@.subrange(0, 0)));
    while i < v.len()
        invariant
            v@ == s@,
            i <= v@.len(),
            out@ == ascii_lowercase(s@.subrange(0, i as int)),
        decreases v@.len() - i,
    {
        out.push(lower_char(v[i]));
        i += 1;
        assert(out@ =~= ascii_lowercase(s@.subrange(0, i as int)));
    }
    assert(s@.subrange(0, i as int) =~= s@);
    out
}

/// The first place from `pos` on that holds `c`, or the end of the text.
pub open spec fn char_from(s: Seq<char>, c: char, pos: int) -> int
    decreases s.len() - pos,
{
    if 0 <= pos < s.len() && s[pos] != c {
        char_from(s, c, pos + 1)
    } else {
        pos
    }
}

/// A search for a character ends at the first one, or at the end of the text.
pub proof fn lemma_char_from(s: Seq<char>, c: char, pos: int)
    requires
        0 <= pos <= s.len(),
    ensures
        pos <= char_from(s, c, pos) <= s.len(),
        char_from(s, c, pos) < s.len() ==> s[char_from(s, c, pos)] == c,
        forall|i: int| pos <= i < char_from(s, c, pos) ==> #[trigger] s[i] != c,
    decreases s.len() - pos,
{
    if pos < s.len() && s[pos] != c {
        lemma_char_from(s, c, pos + 1);
    }
}

/// The first place from `pos` on that holds `c`, or the end of the text.
pub fn find_char(v: &[char], c: char, pos: usize) -> (r: usize)
    requires
        pos <= v@.len(),
    ensures
        r == char_from(v@, c, pos as int),
        pos <= r <= v@.len() <= usize::MAX,
{
    let n: usize = v.len();
    let mut i: usize = pos;
    while i < n && v[i] != c
        invariant
            pos <= i <= v@.len() == n,
            char_from(v@, c, i as int) == char_from(v@, c, pos as int),
        decreases v@.len() - i,
    {
        i += 1;
    }
    i
}

/// A text without any `c` at its end.
pub open spec fn without_tail(s: Seq<char>, c: char) -> Seq<char>
    decreases s.len(),
{
    if s.len() > 0 && s.last() == c {
        without_tail(s.drop_last(), c)
    } else {
        s
    }
}

/// Leaves out every `c` at the end of a text.
pub fn trim_tail(s: &str, c: char) -> (r: String)
    ensures
        r@ == without_tail(s@, c),
{
    let v = chars_of(s);
    let mut n: usize = v.len();
    assert(s@.subrange(0, n as int) =~= s@);
    while n > 0 && v[n - 1] == c
        invariant
            v@ == s@,
            n <= v@.len(),
            without_tail(s@.subrange(0, n as int), c) == without_tail(s@, c),
        decreases n,
    {
        assert(s@.subrange(0, n as int).drop_last() =~= s@.subrange(0, n - 1));
        n -= 1;
    }
    string_of(v.as_slice(), 0, n)
}

/// A text without any repetitions of `p`, which is not empty, at its end.
pub open spec fn without_suffix(s: Seq<char>, p: Seq<char>) -> Seq<char>
    decreases s.len(),
{
    if p.len() > 0 && p.len() <= s.len() && s.subrange(s.len() - p.len(), s.len() as int) == p {
        without_suffix(s.subrange(0, s.len() - p.len()), p)
    } else {
        s
    }
}

/// Leaves out every repetition of `p` at the end of a text.
pub fn trim_suffix(s: &str, p: &str) -> (r: String)
    ensures
        r@ == without_suffix(s@, p@),
{
    let v = chars_of(s);
    let w = chars_of(p);
    let mut n: usize = v.len();
    let m: usize = w.len();
    assert(s@.subrange(0, n as int) =~= s@);
    if m > 0 {
        loop
            invariant_except_break
                v@ == s@,
                w@ == p@,
                n <= v@.len(),
                m == w@.len(),
                m > 0,
                without_suffix(s@.subrange(0, n as int), p@) == without_suffix(s@, p@),
            ensures
                v@ == s@,
                n <= v@.len(),
                s@.subrange(0, n as int) == without_suffix(s@, p@),
            decreases n,
        {
            if m > n {
                break;
            }
            if !stands(v.as_slice(), w.as_slice(), n - m) {
                assert(s@.subrange(0, n as int).subrange(n - m, n as int) =~= s@.subrange(
                    n - m,
                    n as int,
                ));
                break;
            }
            assert(s@.subrange(0, n as int).subrange(n - m, n as int) =~= s@.subrange(
                n - m,
                n as int,
            ));
            assert(s@.subrange(0, n as int).subrange(0, n - m) =~= s@.subrange(0, n - m));
            n = n - m;
        }
    }
    string_of(v.as_slice(), 0, n)
}

/// The first text comes before the second: they are compared character by character, by code
/// point, and a text comes before its continuations.
pub open spec fn text_less(a: Seq<char>, b: Seq<char>) -> bool
    decreases a.len(),
{
    if b.len() == 0 {
        false
    } else if a.len() == 0 {
        true
    } else if a[0] != b[0] {
        a[0] < b[0]
    } else {
        text_less(a.subrange(1, a.len() as int), b.subrange(1, b.len() as int))
    }
}

/// The order of texts is total.
pub proof fn lemma_text_less_total(a: Seq<char>, b: Seq<char>)
    ensures
        !(text_less(a, b) && text_less(b, a)),
        text_less(a, b) || text_less(b, a) || a == b,
    decreases a.len(),
{
    if a.len() > 0 && b.len() > 0 && a[0] == b[0] {
        let x = a.subrange(1, a.len() as int);
        let y = b.subrange(1, b.len() as int);
        lemma_text_less_total(x, y);
        if x == y {
            assert(a =~= seq![a[0]] + x);
            assert(b =~= seq![b[0]] + y);
        }
    } else if a.len() == 0 && b.len() == 0 {
        assert(a =~= b);
    }
}

/// The order of texts is transitive, also where the two outer ones may be equal to the middle.
pub proof fn lemma_text_less_trans(a: Seq<char>, b: Seq<char>, c: Seq<char>)
    ensures
        text_less(a, b) && text_less(b, c) ==> text_less(a, c),
        !text_less(b, a) && !text_less(c, b) ==> !text_less(c, a),
    decreases a.len(),
{
    lemma_text_less_trans_strict(a, b, c);
    lemma_text_less_trans_strict(c, a, b);
    lemma_text_less_trans_strict(b, c, a);
    lemma_text_less_total(a, b);
    lemma_text_less_total(b, c);
    lemma_text_less_total(a, c);
}

proof fn lemma_text_less_trans_strict(a: Seq<char>, b: Seq<char>, c: Seq<char>)
    ensures
        text_less(a, b) && text_less(b, c) ==> text_less(a, c),
    decreases a.len(),
{
    if a.len() > 0 && b.len() > 0 && c.len() > 0 && a[0] == b[0] && b[0] == c[0] {
        lemma_text_less_trans_strict(
            a.subrange(1, a.len() as int),
            b.subrange(1, b.len() as int),
            c.subrange(1, c.len() as int),
        );
    }
}

/// Whether one text comes before another.
pub fn text_precedes(a: &str, b: &str) -> (r: bool)
    ensures
        r == text_less(a@, b@),
{
    let v = chars_of(a);
    let w = chars_of(b);
    let mut i: usize = 0;
    assert(a@.subrange(0, a@.len() as int) =~= a@);
    assert(b@.subrange(0, b@.len() as int) =~= b@);
    loop
        invariant
            v@ == a@,
            w@ == b@,
            i <= v@.len(),
            i <= w@.len(),
            text_less(a@, b@) == text_less(
                a@.subrange(i as int, a@.len() as int),
                b@.subrange(i as int, b@.len() as int),
            ),
        decreases v@.len() - i,
    {
        if i == w.len() {
            return false;
        }
        if i == v.len() {
            return true;
        }
        if v[i] != w[i] {
            return v[i] < w[i];
        }
        assert(a@.subrange(i as int, a@.len() as int).subrange(1, a@.len() - i) =~= a@.subrange(
            i + 1,
            a@.len() as int,
        ));
        assert(b@.subrange(i as int, b@.len() as int).subrange(1, b@.len() - i) =~= b@.subrange(
            i + 1,
            b@.len() as int,
        ));
        i += 1;
    }
}

/// The end of the run of digits that starts at `pos`.
pub open spec fn digits_end(s: Seq<char>, pos: int) -> int
    decreases s.len() - pos,
{
    if 0 <= pos < s.len() && digit(s[pos]) {
        digits_end(s, pos + 1)
    } else {
        pos
    }
}

/// A run of digits ends no earlier than it starts, and within the text.
pub proof fn lemma_digits_end(s: Seq<char>, pos: int)
    requires
        0 <= pos <= s.len(),
    ensures
        pos <= digits_end(s, pos) <= s.len(),
    decreases s.len() - pos,
{
    if pos < s.len() {
        lemma_digits_end(s, pos + 1);
    }
}

/// The end of the run of digits that starts at `pos`.
pub fn find_digits_end(v: &[char], pos: usize) -> (end: usize)
    requires
        pos <= v@.len(),
    ensures
        end == digits_end(v@, pos as int),
        pos <= end <= v@.len(),
{
    let mut i: usize = pos;
    while i < v.len() && v[i] >= '0' && v[i] <= '9'
        invariant
            pos <= i <= v@.len(),
            digits_end(v@, i as int) == digits_end(v@, pos as int),
        decreases v@.len() - i,
    {
        i += 1;
    }
    i
}

/// The upper case form of a text, as `str::to_uppercase` gives it.
pub uninterp spec fn uppercase(s: Seq<char>) -> Seq<char>;

/// `c` with an ASCII lower case letter turned into its upper case form.
pub open spec fn ascii_upper(c: char) -> char {
    if 'a' <= c && c <= 'z' {
        (c as u32 - 32) as char
    } else {
        c
    }
}

/// `str::to_uppercase` (std): what it returns depends on the text alone, and on an ASCII text each
/// lower case letter is replaced by its upper case form and nothing else changes.
pub assume_specification[ str::to_uppercase ](s: &str) -> (r: String)
    ensures
        r@ == uppercase(s@),
        ascii(s@) ==> r@ == s@.map_values(|c: char| ascii_upper(c)),
;

/// Decimal digits read back as the number they were written for.
pub proof fn lemma_decimal_reads_back(n: nat)
    ensures
        digits_value(decimal(n)) == n,
        all_digits(decimal(n)),
    decreases n,
{
    if n < 10 {
        let s = seq![digit_char(n as int)];
        assert(s.drop_last() =~= Seq::empty());
        assert(digits_value(s.drop_last()) == 0);
    } else {
        lemma_decimal_reads_back(n / 10);
        let head = decimal(n / 10);
        let s = head.push(digit_char(n as int % 10));
        assert(s.drop_last() =~= head);
        assert forall|i: int| 0 <= i < s.len() implies digit(#[trigger] s[i]) by {
            if i < head.len() {
                assert(s[i] == head[i]);
            }
        }
    }
}

/// Different numbers are written differently, also behind the same text.
pub proof fn lemma_decimal_distinct(lead: Seq<char>, a: nat, b: nat)
    requires
        a != b,
    ensures
        lead + decimal(a) != lead + decimal(b),
{
    lemma_decimal_reads_back(a);
    lemma_decimal_reads_back(b);
    if lead + decimal(a) == lead + decimal(b) {
        let x = lead + decimal(a);
        let y = lead + decimal(b);
        assert(x.subrange(lead.len() as int, x.len() as int) =~= decimal(a));
        assert(y.subrange(lead.len() as int, y.len() as int) =~= decimal(b));
    }
}

/// A number of up to 128 bits written in decimal.
pub fn decimal_wide(n: u128) -> (r: String)
    ensures
        r@ == decimal(n as nat),
    decreases n,
{
    let mut out = if n < 10 {
        String::new()
    } else {
        decimal_wide(n / 10)
    };
    out.push(digit_of((n % 10) as u8));
    assert(n < 10 ==> out@ =~= seq![digit_char(n as int)]);
    out
}

proof fn lemma_trimmed_start_padded(front: Seq<char>, s: Seq<char>)
    requires
        forall|i: int| 0 <= i < front.len() ==> white(#[trigger] front[i]),
    ensures
        trimmed_start(front + s) == trimmed_start(s),
    decreases front.len(),
{
    if front.len() == 0 {
        assert(front + s =~= s);
    } else {
        let rest = front.subrange(1, front.len() as int);
        lemma_trimmed_start_padded(rest, s);
        assert((front + s)[0] == front[0]);
        assert((front + s).subrange(1, (front + s).len() as int) =~= rest + s);
    }
}

proof fn lemma_trimmed_end_padded(s: Seq<char>, back: Seq<char>)
    requires
        forall|i: int| 0 <= i < back.len() ==> white(#[trigger] back[i]),
    ensures
        trimmed_end(s + back) == trimmed_end(s),
    decreases back.len(),
{
    if back.len() == 0 {
        assert(s + back =~= s);
    } else {
        lemma_trimmed_end_padded(s, back.drop_last());
        assert((s + back).last() == back[back.len() - 1]);
        assert((s + back).drop_last() =~= s + back.drop_last());
    }
}

proof fn lemma_all_white(s: Seq<char>)
    requires
        forall|i: int| 0 <= i < s.len() ==> white(#[trigger] s[i]),
    ensures
        trimmed_start(s) == Seq::<char>::empty(),
        trimmed_end(s) == Seq::<char>::empty(),
    decreases s.len(),
{
    lemma_trimmed_start_padded(s, Seq::empty());
    lemma_trimmed_end_padded(Seq::empty(), s);
    assert(s + Seq::<char>::empty() =~= s);
    assert(Seq::<char>::empty() + s =~= s);
}

/// White space behind a text that starts with something else stays behind it.
proof fn lemma_trimmed_start_behind(s: Seq<char>, back: Seq<char>)
    requires
        forall|i: int| 0 <= i < back.len() ==> white(#[trigger] back[i]),
    ensures
        trimmed_end(trimmed_start(s + back)) == trimmed_end(trimmed_start(s)),
    decreases s.len(),
{
    if s.len() == 0 {
        assert(s + back =~= back);
        lemma_all_white(back);
    } else if white(s[0]) {
        let rest = s.subrange(1, s.len() as int);
        lemma_trimmed_start_behind(rest, back);
        assert((s + back)[0] == s[0]);
        assert((s + back).subrange(1, (s + back).len() as int) =~= rest + back);
    } else {
        assert((s + back)[0] == s[0]);
        lemma_trimmed_end_padded(s, back);
    }
}

/// White space around a text does not matter to what is left of it.
pub proof fn lemma_trimmed_padded(front: Seq<char>, s: Seq<char>, back: Seq<char>)
    requires
        forall|i: int| 0 <= i < front.len() ==> white(#[trigger] front[i]),
        forall|i: int| 0 <= i < back.len() ==> white(#[trigger] back[i]),
    ensures
        trimmed(front + s + back) == trimmed(s),
{
    assert(front + s + back =~= front + (s + back));
    lemma_trimmed_start_padded(front, s + back);
    lemma_trimmed_start_behind(s, back);
}

proof fn lemma_start_lowercase(s: Seq<char>)
    requires
        ascii(s),
    ensures
        trimmed_start(ascii_lowercase(s)) == ascii_lowercase(trimmed_start(s)),
        ascii(trimmed_start(s)),
    decreases s.len(),
{
    let low = ascii_lowercase(s);
    if s.len() > 0 && white(s[0]) {
        let rest = s.subrange(1, s.len() as int);
        lemma_start_lowercase(rest);
        assert(low.subrange(1, low.len() as int) =~= ascii_lowercase(rest));
    }
}

proof fn lemma_end_lowercase(s: Seq<char>)
    requires
        ascii(s),
    ensures
        trimmed_end(ascii_lowercase(s)) == ascii_lowercase(trimmed_end(s)),
        ascii(trimmed_end(s)),
    decreases s.len(),
{
    let low = ascii_lowercase(s);
    if s.len() > 0 {
        assert(low.last() == ascii_lower(s[s.len() - 1]));
    }
    if s.len() > 0 && white(s.last()) {
        lemma_end_lowercase(s.drop_last());
        assert(low.drop_last() =~= ascii_lowercase(s.drop_last()));
    }
}

/// The case of the letters of a text does not matter to what is left of it.
pub proof fn lemma_trimmed_lowercase(s: Seq<char>)
    requires
        ascii(s),
    ensures
        trimmed(ascii_lowercase(s)) == ascii_lowercase(trimmed(s)),
        ascii(trimmed(s)),
{
    lemma_start_lowercase(s);
    lemma_end_lowercase(trimmed_start(s));
}

} // verus!
