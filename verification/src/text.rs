//! Text as sequences of characters: the small vocabulary in which the rest of
//! the crate states what its parsers and formatters do.
use vstd::prelude::*;
use vstd::slice::slice_subrange;
use vstd::string::*;

verus! {

/// `String::push` of the standard library: appends the character.
pub assume_specification[ String::push ](s: &mut String, c: char)
    ensures
        final(s)@ == old(s)@.push(c),
;

/// Equality of `str` in the standard library: the two hold the same text.
pub assume_specification[ <str as PartialEq>::eq ](a: &str, b: &str) -> (same: bool)
    ensures
        same == (a@ == b@),
;

/// The texts that a sequence of strings holds.
pub open spec fn texts(v: Seq<String>) -> Seq<Seq<char>> {
    v.map_values(|s: String| s@)
}

/// The texts that a sequence of character vectors holds.
pub open spec fn char_texts(v: Seq<Vec<char>>) -> Seq<Seq<char>> {
    v.map_values(|s: Vec<char>| s@)
}

/// The content of an optional text.
pub open spec fn opt_text(s: Option<String>) -> Option<Seq<char>> {
    match s {
        Some(text) => Some(text@),
        None => None,
    }
}

/// The content of an optional borrowed text.
pub open spec fn opt_str(s: Option<&str>) -> Option<Seq<char>> {
    match s {
        Some(text) => Some(text@),
        None => None,
    }
}

/// A copy of an optional text.
pub fn copy_opt(s: &Option<String>) -> (copy: Option<String>)
    ensures
        opt_text(copy) == opt_text(*s),
        copy == *s,
{
    match s {
        Some(text) => Some(text.clone()),
        None => None,
    }
}

/// A copy of a list of texts.
pub fn copy_texts(list: &[String]) -> (copy: Vec<String>)
    ensures
        copy@ == list@,
        texts(copy@) == texts(list@),
{
    let mut copy: Vec<String> = Vec::new();
    let mut i: usize = 0;
    while i < list.len()
        invariant
            i <= list@.len(),
            copy@ == list@.take(i as int),
        decreases list@.len() - i,
    {
        copy.push(list[i].clone());
        assert(list@.take(i + 1) =~= list@.take(i as int).push(list@[i as int]));
        i = i + 1;
    }
    assert(list@.take(i as int) =~= list@);
    copy
}

/// The characters of `s`.
pub fn chars_of(s: &str) -> (chars: Vec<char>)
    ensures
        chars@ == s@,
{
    let mut chars: Vec<char> = Vec::new();
    for c in it: s.chars()
        invariant
            chars@ == it.seq().take(it.index()),
            it.seq() == s@,
    {
        chars.push(c);
    }
    chars
}

/// The string that holds exactly `chars`.
pub fn string_of(chars: &[char]) -> (s: String)
    ensures
        s@ == chars@,
{
    let mut s: String = String::new();
    let mut i: usize = 0;
    while i < chars.len()
        invariant
            i <= chars.len(),
            s@ == chars@.take(i as int),
        decreases chars.len() - i,
    {
        s.push(chars[i]);
        i = i + 1;
        assert(chars@.take(i as int).drop_last() =~= chars@.take(i - 1));
    }
    assert(chars@.take(i as int) =~= chars@);
    s
}

/// Whether two strings hold the same text.
pub fn same_text(a: &str, b: &str) -> (same: bool)
    ensures
        same == (a@ == b@),
{
    *a == *b
}

/// The lower-case form of an ASCII letter; any other character unchanged.
pub open spec fn ascii_lower(c: char) -> char {
    if 'A' <= c && c <= 'Z' {
        (c as u32 + 32) as char
    } else {
        c
    }
}

/// The upper-case form of an ASCII letter; any other character unchanged.
pub open spec fn ascii_upper(c: char) -> char {
    if 'a' <= c && c <= 'z' {
        (c as u32 - 32) as char
    } else {
        c
    }
}

/// `s` with its ASCII letters in lower case.
pub open spec fn lower_text(s: Seq<char>) -> Seq<char> {
    Seq::new(s.len(), |i: int| ascii_lower(s[i]))
}

/// `s` with its ASCII letters in upper case.
pub open spec fn upper_text(s: Seq<char>) -> Seq<char> {
    Seq::new(s.len(), |i: int| ascii_upper(s[i]))
}

/// Whether two texts are the same but for the case of ASCII letters.
pub open spec fn same_ignoring_case(a: Seq<char>, b: Seq<char>) -> bool {
    lower_text(a) == lower_text(b)
}

/// Whether `c` is an ASCII letter.
pub open spec fn ascii_letter(c: char) -> bool {
    ('A' <= c && c <= 'Z') || ('a' <= c && c <= 'z')
}

/// Whether `c` is an ASCII digit.
pub open spec fn ascii_digit(c: char) -> bool {
    '0' <= c && c <= '9'
}

/// Whether `c` is a hexadecimal digit in either case.
pub open spec fn hex_char(c: char) -> bool {
    ascii_digit(c) || ('A' <= c && c <= 'F') || ('a' <= c && c <= 'f')
}

/// Whether `c` has the Unicode property `White_Space`.
pub open spec fn white_space(c: char) -> bool {
    let n = c as u32;
    ||| 0x09 <= n <= 0x0d
    ||| n == 0x20
    ||| n == 0x85
    ||| n == 0xa0
    ||| n == 0x1680
    ||| 0x2000 <= n <= 0x200a
    ||| n == 0x2028
    ||| n == 0x2029
    ||| n == 0x202f
    ||| n == 0x205f
    ||| n == 0x3000
}

/// `s` without its leading white space.
pub open spec fn trim_start(s: Seq<char>) -> Seq<char>
    decreases s.len(),
{
    if s.len() > 0 && white_space(s[0]) {
        trim_start(s.skip(1))
    } else {
        s
    }
}

/// `s` without its trailing white space.
pub open spec fn trim_end(s: Seq<char>) -> Seq<char>
    decreases s.len(),
{
    if s.len() > 0 && white_space(s.last()) {
        trim_end(s.drop_last())
    } else {
        s
    }
}

/// `s` without the white space at either end.
pub open spec fn trim(s: Seq<char>) -> Seq<char> {
    trim_end(trim_start(s))
}

/// `s` without the characters of `dropped` at its end.
pub open spec fn trim_end_of(s: Seq<char>, dropped: Seq<char>) -> Seq<char>
    decreases s.len(),
{
    if s.len() > 0 && dropped.contains(s.last()) {
        trim_end_of(s.drop_last(), dropped)
    } else {
        s
    }
}

/// The position of the first `c` in `s`, or the length of `s`.
pub open spec fn first_index(s: Seq<char>, c: char) -> int
    decreases s.len(),
{
    if s.len() == 0 || s[0] == c {
        0
    } else {
        1 + first_index(s.skip(1), c)
    }
}

/// The pieces of `s` between the occurrences of `sep`.
pub open spec fn split_on(s: Seq<char>, sep: char) -> Seq<Seq<char>>
    decreases s.len(),
{
    let at = first_index(s, sep);
    if 0 <= at < s.len() {
        seq![s.take(at)] + split_on(s.skip(at + 1), sep)
    } else {
        seq![s]
    }
}

/// What comes before the first white space of `s`.
pub open spec fn word_at_start(s: Seq<char>) -> Seq<char>
    decreases s.len(),
{
    if s.len() > 0 && !white_space(s[0]) {
        seq![s[0]] + word_at_start(s.skip(1))
    } else {
        Seq::empty()
    }
}

/// The first word of `s`: what stands between its leading white space and the
/// next.
pub open spec fn first_word(s: Seq<char>) -> Seq<char> {
    word_at_start(trim_start(s))
}

/// Whether `part` occurs in `s`.
pub open spec fn contains_text(s: Seq<char>, part: Seq<char>) -> bool {
    exists|i: int|
        0 <= i <= s.len() - part.len() && #[trigger] s.subrange(i, i + part.len()) == part
}

/// The decimal digit for `n`.
pub open spec fn digit_char(n: int) -> char {
    (48 + n) as char
}

/// `n` in decimal, without leading zeros.
pub open spec fn decimal(n: nat) -> Seq<char>
    decreases n,
{
    if n < 10 {
        seq![digit_char(n as int)]
    } else {
        decimal(n / 10).push(digit_char((n % 10) as int))
    }
}

/// `s` with zeros put in front of it up to `width` characters.
pub open spec fn zero_padded(s: Seq<char>, width: nat) -> Seq<char> {
    if s.len() < width {
        Seq::new((width - s.len()) as nat, |i: int| '0') + s
    } else {
        s
    }
}

/// The number that the decimal digits `s` write down.
pub open spec fn decimal_value(s: Seq<char>) -> nat
    decreases s.len(),
{
    if s.len() == 0 {
        0
    } else {
        decimal_value(s.drop_last()) * 10 + (s.last() as u32 - 48) as nat
    }
}

/// What is left of a number's text once an optional leading plus sign is gone.
pub open spec fn unsigned_body(s: Seq<char>) -> Seq<char> {
    if s.len() > 0 && s[0] == '+' {
        s.skip(1)
    } else {
        s
    }
}

/// The number that `s` writes down as an unsigned decimal: an optional plus
/// sign and at least one digit, nothing else, and no more than `max`.
pub open spec fn parsed_unsigned(s: Seq<char>, max: nat) -> Option<nat> {
    let body = unsigned_body(s);
    if body.len() > 0 && (forall|i: int| 0 <= i < body.len() ==> ascii_digit(#[trigger] body[i]))
        && decimal_value(body) <= max {
        Some(decimal_value(body))
    } else {
        None
    }
}

/// The lower-case hexadecimal digit for `n`.
pub open spec fn hex_digit(n: int) -> char {
    if n < 10 {
        (48 + n) as char
    } else {
        (87 + n) as char
    }
}

/// `bytes` in lower-case hexadecimal, two digits for each.
pub open spec fn hex_text(bytes: Seq<u8>) -> Seq<char> {
    Seq::new(
        2 * bytes.len(),
        |i: int|
            if i % 2 == 0 {
                hex_digit(bytes[i / 2] as int / 16)
            } else {
                hex_digit(bytes[i / 2] as int % 16)
            },
    )
}

/// The lower-case form of `c`, if it is an ASCII letter.
pub fn lower_char(c: char) -> (r: char)
    ensures
        r == ascii_lower(c),
{
    if 'A' <= c && c <= 'Z' {
        (c as u8 + 32) as char
    } else {
        c
    }
}

/// The upper-case form of `c`, if it is an ASCII letter.
pub fn upper_char(c: char) -> (r: char)
    ensures
        r == ascii_upper(c),
{
    if 'a' <= c && c <= 'z' {
        (c as u8 - 32) as char
    } else {
        c
    }
}

/// Whether `c` is an ASCII letter.
pub fn is_ascii_letter(c: char) -> (yes: bool)
    ensures
        yes == ascii_letter(c),
{
    ('A' <= c && c <= 'Z') || ('a' <= c && c <= 'z')
}

/// `s` with its ASCII letters in lower case.
pub fn to_lower(s: &[char]) -> (r: Vec<char>)
    ensures
        r@ == lower_text(s@),
{
    let mut r: Vec<char> = Vec::new();
    let mut i: usize = 0;
    while i < s.len()
        invariant
            i <= s.len(),
            r@ == lower_text(s@).take(i as int),
        decreases s.len() - i,
    {
        r.push(lower_char(s[i]));
        i = i + 1;
    }
    r
}

/// `s` with its ASCII letters in upper case.
pub fn to_upper(s: &[char]) -> (r: Vec<char>)
    ensures
        r@ == upper_text(s@),
{
    let mut r: Vec<char> = Vec::new();
    let mut i: usize = 0;
    while i < s.len()
        invariant
            i <= s.len(),
            r@ == upper_text(s@).take(i as int),
        decreases s.len() - i,
    {
        r.push(upper_char(s[i]));
        i = i + 1;
    }
    r
}

/// Whether two texts hold the same characters.
pub fn same_chars(a: &[char], b: &[char]) -> (same: bool)
    ensures
        same == (a@ == b@),
{
    if a.len() != b.len() {
        return false;
    }
    let mut i: usize = 0;
    while i < a.len()
        invariant
            i <= a.len(),
            a.len() == b.len(),
            a@.take(i as int) == b@.take(i as int),
        decreases a.len() - i,
    {
        if a[i] != b[i] {
            return false;
        }
        i = i + 1;
        assert(a@.take(i as int) =~= a@.take(i - 1).push(a@[i - 1]));
        assert(b@.take(i as int) =~= b@.take(i - 1).push(b@[i - 1]));
    }
    assert(a@.take(i as int) =~= a@);
    assert(b@.take(i as int) =~= b@);
    true
}

/// Whether two strings are the same but for the case of ASCII letters.
pub fn eq_ignore_case(a: &str, b: &str) -> (same: bool)
    ensures
        same == same_ignoring_case(a@, b@),
{
    let x = to_lower(&chars_of(a));
    let y = to_lower(&chars_of(b));
    same_chars(&x, &y)
}

/// Whether `c` has the Unicode property `White_Space`.
pub fn is_white_space(c: char) -> (r: bool)
    ensures
        r == white_space(c),
{
    let n: u32 = c as u32;
    (0x09 <= n && n <= 0x0d) || n == 0x20 || n == 0x85 || n == 0xa0 || n == 0x1680 || (0x2000 <= n
        && n <= 0x200a) || n == 0x2028 || n == 0x2029 || n == 0x202f || n == 0x205f || n == 0x3000
}

/// `s` without the white space at either end.
pub fn trim_chars(s: &[char]) -> (r: &[char])
    ensures
        r@ == trim(s@),
{
    let mut from: usize = 0;
    assert(s@.skip(0) =~= s@);
    while from < s.len() && is_white_space(s[from])
        invariant
            from <= s.len(),
            trim_start(s@.skip(from as int)) == trim_start(s@),
        decreases s.len() - from,
    {
        assert(s@.skip(from as int).skip(1) =~= s@.skip(from + 1));
        from = from + 1;
    }
    let mut to: usize = s.len();
    assert(s@.subrange(from as int, to as int) =~= s@.skip(from as int));
    while to > from && is_white_space(s[to - 1])
        invariant
            from <= to <= s.len(),
            trim_end(s@.subrange(from as int, to as int)) == trim(s@),
        decreases to,
    {
        assert(s@.subrange(from as int, to as int).drop_last() =~= s@.subrange(
            from as int,
            to - 1,
        ));
        to = to - 1;
    }
    slice_subrange(s, from, to)
}

/// The first word of `s`; empty where `s` has none.
pub fn first_word_chars(s: &[char]) -> (word: &[char])
    ensures
        word@ == first_word(s@),
{
    let mut from: usize = 0;
    assert(s@.skip(0) =~= s@);
    while from < s.len() && is_white_space(s[from])
        invariant
            from <= s.len(),
            trim_start(s@.skip(from as int)) == trim_start(s@),
        decreases s.len() - from,
    {
        assert(s@.skip(from as int).skip(1) =~= s@.skip(from + 1));
        from = from + 1;
    }
    let mut to: usize = from;
    assert(s@.subrange(from as int, to as int) =~= Seq::empty());
    assert(Seq::<char>::empty() + word_at_start(s@.skip(to as int)) =~= first_word(s@));
    while to < s.len() && !is_white_space(s[to])
        invariant
            from <= to <= s.len(),
            s@.subrange(from as int, to as int) + word_at_start(s@.skip(to as int)) == first_word(
                s@,
            ),
        decreases s.len() - to,
    {
        assert(s@.skip(to as int).skip(1) =~= s@.skip(to + 1));
        assert(s@.subrange(from as int, to + 1) =~= s@.subrange(from as int, to as int).push(
            s@[to as int],
        ));
        assert(s@.subrange(from as int, to as int) + (seq![s@[to as int]] + word_at_start(
            s@.skip(to + 1),
        )) =~= s@.subrange(from as int, to + 1) + word_at_start(s@.skip(to + 1)));
        to = to + 1;
    }
    assert(s@.subrange(from as int, to as int) + word_at_start(s@.skip(to as int)) =~= s@.subrange(
        from as int,
        to as int,
    ));
    slice_subrange(s, from, to)
}

/// Whether nothing but white space stands in `s`.
pub fn is_blank(s: &str) -> (blank: bool)
    ensures
        blank == (trim(s@).len() == 0),
{
    let chars = chars_of(s);
    trim_chars(&chars).len() == 0
}

/// `s` without the characters of `dropped` at its end.
pub fn trim_end_chars<'a>(s: &'a [char], dropped: &[char]) -> (r: &'a [char])
    ensures
        r@ == trim_end_of(s@, dropped@),
{
    let mut to: usize = s.len();
    assert(s@.take(to as int) =~= s@);
    while to > 0 && has_char(dropped, s[to - 1])
        invariant
            to <= s.len(),
            trim_end_of(s@.take(to as int), dropped@) == trim_end_of(s@, dropped@),
        decreases to,
    {
        assert(s@.take(to as int).drop_last() =~= s@.take(to - 1));
        to = to - 1;
    }
    assert(s@.subrange(0, to as int) =~= s@.take(to as int));
    slice_subrange(s, 0, to)
}

/// What is left once the end is trimmed begins the text and does not end in a
/// dropped character.
pub proof fn lemma_trim_end_of(s: Seq<char>, dropped: Seq<char>)
    ensures
        trim_end_of(s, dropped).is_prefix_of(s),
        trim_end_of(s, dropped).len() > 0 ==> !dropped.contains(trim_end_of(s, dropped).last()),
    decreases s.len(),
{
    if s.len() > 0 && dropped.contains(s.last()) {
        lemma_trim_end_of(s.drop_last(), dropped);
        assert(trim_end_of(s, dropped) =~= s.subrange(0, trim_end_of(s, dropped).len() as int));
    } else {
        assert(s =~= s.subrange(0, s.len() as int));
    }
}

/// Whether `c` occurs in `s`.
pub fn has_char(s: &[char], c: char) -> (found: bool)
    ensures
        found == s@.contains(c),
{
    let mut i: usize = 0;
    while i < s.len()
        invariant
            i <= s.len(),
            forall|j: int| 0 <= j < i ==> s@[j] != c,
        decreases s.len() - i,
    {
        if s[i] == c {
            return true;
        }
        i = i + 1;
    }
    false
}

/// The position that [`first_index`] names is one where `c` stands, and no
/// earlier one is.
pub proof fn lemma_first_index(s: Seq<char>, c: char)
    ensures
        0 <= first_index(s, c) <= s.len(),
        first_index(s, c) < s.len() ==> s[first_index(s, c)] == c,
        forall|j: int| 0 <= j < first_index(s, c) ==> s[j] != c,
    decreases s.len(),
{
    if s.len() > 0 && s[0] != c {
        lemma_first_index(s.skip(1), c);
        assert forall|j: int| 0 <= j < first_index(s, c) implies s[j] != c by {
            if j > 0 {
                assert(s.skip(1)[j - 1] == s[j]);
            }
        }
    }
}

/// The position of the first `c` in `s`, or the length of `s`.
pub fn find_char(s: &[char], c: char) -> (at: usize)
    ensures
        at == first_index(s@, c),
        at <= s@.len(),
{
    let mut i: usize = 0;
    proof {
        lemma_first_index(s@, c);
    }
    while i < s.len() && s[i] != c
        invariant
            i <= s.len(),
            forall|j: int| 0 <= j < i ==> s@[j] != c,
        decreases s.len() - i,
    {
        i = i + 1;
    }
    i
}

/// The pieces of `s` between the occurrences of `sep`.
pub fn split_chars(s: &[char], sep: char) -> (pieces: Vec<Vec<char>>)
    ensures
        char_texts(pieces@) == split_on(s@, sep),
{
    let mut pieces: Vec<Vec<char>> = Vec::new();
    let mut from: usize = 0;
    assert(s@.skip(0) =~= s@);
    assert(char_texts(pieces@) + split_on(s@, sep) =~= split_on(s@, sep));
    loop
        invariant
            from <= s.len(),
            char_texts(pieces@) + split_on(s@.skip(from as int), sep) == split_on(s@, sep),
        decreases s.len() - from,
    {
        let rest = slice_subrange(s, from, s.len());
        assert(rest@ =~= s@.skip(from as int));
        let at: usize = find_char(rest, sep);
        let ghost before = pieces@;
        if at < rest.len() {
            let piece = copy_chars(slice_subrange(rest, 0, at));
            assert(piece@ =~= rest@.take(at as int));
            pieces.push(piece);
            assert(rest@.skip(at + 1) =~= s@.skip(from + at + 1));
            from = from + at + 1;
            assert(char_texts(pieces@) =~= char_texts(before) + seq![rest@.take(at as int)]);
            assert(char_texts(pieces@) + split_on(s@.skip(from as int), sep) =~= char_texts(before)
                + (seq![rest@.take(at as int)] + split_on(s@.skip(from as int), sep)));
        } else {
            pieces.push(copy_chars(rest));
            assert(char_texts(pieces@) =~= char_texts(before) + seq![rest@]);
            return pieces;
        }
    }
}

/// A copy of `s`.
pub fn copy_chars(s: &[char]) -> (r: Vec<char>)
    ensures
        r@ == s@,
{
    let mut r: Vec<char> = Vec::new();
    let mut i: usize = 0;
    while i < s.len()
        invariant
            i <= s.len(),
            r@ == s@.take(i as int),
        decreases s.len() - i,
    {
        r.push(s[i]);
        i = i + 1;
        assert(s@.take(i as int) =~= s@.take(i - 1).push(s@[i - 1]));
    }
    assert(s@.take(i as int) =~= s@);
    r
}

/// Whether `s` begins with `prefix`.
pub fn starts_with(s: &[char], prefix: &[char]) -> (yes: bool)
    ensures
        yes == prefix@.is_prefix_of(s@),
{
    if prefix.len() > s.len() {
        return false;
    }
    assert(s@.subrange(0, prefix@.len() as int) == prefix@ <==> prefix@.is_prefix_of(s@));
    same_chars(slice_subrange(s, 0, prefix.len()), prefix)
}

/// Whether `s` ends with `suffix`.
pub fn ends_with(s: &[char], suffix: &[char]) -> (yes: bool)
    ensures
        yes == suffix@.is_suffix_of(s@),
{
    if suffix.len() > s.len() {
        return false;
    }
    assert(s@.subrange(s@.len() - suffix@.len(), s@.len() as int) == suffix@
        <==> suffix@.is_suffix_of(s@));
    same_chars(slice_subrange(s, s.len() - suffix.len(), s.len()), suffix)
}

/// Whether `part` occurs in `s`.
pub fn contains_chars(s: &[char], part: &[char]) -> (yes: bool)
    ensures
        yes == contains_text(s@, part@),
{
    if part.len() > s.len() {
        return false;
    }
    let last: usize = s.len() - part.len();
    let mut i: usize = 0;
    loop
        invariant
            last == s.len() - part.len(),
            i <= last,
            forall|j: int| 0 <= j < i ==> #[trigger] s@.subrange(j, j + part@.len()) != part@,
        decreases last - i,
    {
        if same_chars(slice_subrange(s, i, i + part.len()), part) {
            return true;
        }
        if i == last {
            return false;
        }
        i = i + 1;
    }
}

/// `n` in decimal, without leading zeros.
pub fn decimal_chars(n: u64) -> (r: Vec<char>)
    ensures
        r@ == decimal(n as nat),
    decreases n,
{
    if n < 10 {
        let c: char = (48 + n as u8) as char;
        let mut r: Vec<char> = Vec::new();
        r.push(c);
        r
    } else {
        let mut r = decimal_chars(n / 10);
        let c: char = (48 + (n % 10) as u8) as char;
        r.push(c);
        r
    }
}

/// `s` with zeros put in front of it up to `width` characters.
pub fn zero_pad(s: &[char], width: usize) -> (r: Vec<char>)
    ensures
        r@ == zero_padded(s@, width as nat),
{
    let mut r: Vec<char> = Vec::new();
    if s.len() < width {
        let missing: usize = width - s.len();
        let mut i: usize = 0;
        while i < missing
            invariant
                i <= missing,
                r@ == Seq::new(i as nat, |j: int| '0'),
            decreases missing - i,
        {
            r.push('0');
            i = i + 1;
            assert(r@ =~= Seq::new(i as nat, |j: int| '0'));
        }
    }
    let mut rest = copy_chars(s);
    r.append(&mut rest);
    assert(r@ =~= zero_padded(s@, width as nat));
    r
}

/// The number that `s` writes down as an unsigned decimal, if it is one and
/// fits.
pub fn parse_usize(s: &[char]) -> (r: Option<usize>)
    ensures
        match r {
            Some(n) => parsed_unsigned(s@, usize::MAX as nat) == Some(n as nat),
            None => parsed_unsigned(s@, usize::MAX as nat) is None,
        },
{
    let body = if s.len() > 0 && s[0] == '+' {
        assert(s@.skip(1) =~= s@.subrange(1, s@.len() as int));
        slice_subrange(s, 1, s.len())
    } else {
        s
    };
    assert(body@ == unsigned_body(s@));
    if body.len() == 0 {
        return None;
    }
    let mut n: usize = 0;
    let mut i: usize = 0;
    let mut fits: bool = true;
    while i < body.len()
        invariant
            i <= body.len(),
            forall|j: int| 0 <= j < i ==> ascii_digit(#[trigger] body@[j]),
            fits ==> n == decimal_value(body@.take(i as int)),
            !fits ==> decimal_value(body@.take(i as int)) > usize::MAX,
            body@ == unsigned_body(s@),
        decreases body.len() - i,
    {
        let c: char = body[i];
        if !('0' <= c && c <= '9') {
            return None;
        }
        let digit: usize = c as usize - 48;
        assert(body@.take(i + 1).drop_last() =~= body@.take(i as int));
        if fits {
            match n.checked_mul(10) {
                Some(tens) => match tens.checked_add(digit) {
                    Some(sum) => {
                        n = sum;
                    },
                    None => {
                        fits = false;
                    },
                },
                None => {
                    fits = false;
                },
            }
        }
        i = i + 1;
    }
    assert(body@.take(i as int) =~= body@);
    if fits {
        Some(n)
    } else {
        None
    }
}

/// The lower-case hexadecimal digit for `n`.
fn hex_digit_of(n: u8) -> (c: char)
    requires
        n < 16,
    ensures
        c == hex_digit(n as int),
{
    if n < 10 {
        (48 + n) as char
    } else {
        (87 + n) as char
    }
}

/// `bytes` in lower-case hexadecimal, two digits for each.
pub fn hex_chars(bytes: &[u8]) -> (r: Vec<char>)
    ensures
        r@ == hex_text(bytes@),
{
    let mut r: Vec<char> = Vec::new();
    let mut i: usize = 0;
    while i < bytes.len()
        invariant
            i <= bytes.len(),
            r@ == hex_text(bytes@.take(i as int)),
        decreases bytes.len() - i,
    {
        r.push(hex_digit_of(bytes[i] / 16));
        r.push(hex_digit_of(bytes[i] % 16));
        i = i + 1;
        assert(r@ =~= hex_text(bytes@.take(i as int)));
    }
    assert(bytes@.take(i as int) =~= bytes@);
    r
}

/// Whether every character of `s` is a hexadecimal digit.
pub fn all_hex(s: &[char]) -> (yes: bool)
    ensures
        yes == (forall|i: int| 0 <= i < s@.len() ==> hex_char(#[trigger] s@[i])),
{
    let mut i: usize = 0;
    while i < s.len()
        invariant
            i <= s.len(),
            forall|j: int| 0 <= j < i ==> hex_char(#[trigger] s@[j]),
        decreases s.len() - i,
    {
        let c: char = s[i];
        if !(('0' <= c && c <= '9') || ('A' <= c && c <= 'F') || ('a' <= c && c <= 'f')) {
            assert(!hex_char(s@[i as int]));
            return false;
        }
        i = i + 1;
    }
    true
}

/// Whether `a` comes before `b` in the order of their code points, which is
/// the order of their UTF-8 bytes.
pub open spec fn text_before(a: Seq<char>, b: Seq<char>) -> bool
    decreases a.len(),
{
    if b.len() == 0 {
        false
    } else if a.len() == 0 {
        true
    } else if a[0] != b[0] {
        a[0] < b[0]
    } else {
        text_before(a.skip(1), b.skip(1))
    }
}

/// The order of texts is total: two texts are the same or one comes first.
pub proof fn lemma_text_order_total(a: Seq<char>, b: Seq<char>)
    ensures
        a == b || text_before(a, b) || text_before(b, a),
    decreases a.len(),
{
    if a.len() > 0 && b.len() > 0 && a[0] == b[0] {
        lemma_text_order_total(a.skip(1), b.skip(1));
        if a.skip(1) == b.skip(1) {
            assert forall|i: int| 0 <= i < a.len() implies a[i] == b[i] by {
                if i > 0 {
                    assert(a.skip(1)[i - 1] == b.skip(1)[i - 1]);
                }
            }
            assert(a.skip(1).len() == b.skip(1).len());
            assert(a =~= b);
        }
    } else if a.len() == 0 && b.len() == 0 {
        assert(a =~= b);
    }
}

/// The order of texts is strict: not both of two texts come first.
pub proof fn lemma_text_order_strict(a: Seq<char>, b: Seq<char>)
    ensures
        !(text_before(a, b) && text_before(b, a)),
    decreases a.len(),
{
    if a.len() > 0 && b.len() > 0 && a[0] == b[0] {
        lemma_text_order_strict(a.skip(1), b.skip(1));
    }
}

/// The order of texts is transitive.
pub proof fn lemma_text_order_transitive(a: Seq<char>, b: Seq<char>, c: Seq<char>)
    requires
        text_before(a, b),
        text_before(b, c),
    ensures
        text_before(a, c),
    decreases a.len(),
{
    if a.len() > 0 && a[0] == b[0] && b[0] == c[0] {
        lemma_text_order_transitive(a.skip(1), b.skip(1), c.skip(1));
    }
}

/// Whether `a` comes before `b` in the order of their code points.
pub fn chars_before(a: &[char], b: &[char]) -> (before: bool)
    ensures
        before == text_before(a@, b@),
{
    let mut i: usize = 0;
    assert(a@.skip(0) =~= a@);
    assert(b@.skip(0) =~= b@);
    while i < a.len() && i < b.len() && a[i] == b[i]
        invariant
            i <= a.len(),
            i <= b.len(),
            text_before(a@.skip(i as int), b@.skip(i as int)) == text_before(a@, b@),
        decreases a.len() - i,
    {
        assert(a@.skip(i as int).skip(1) =~= a@.skip(i + 1));
        assert(b@.skip(i as int).skip(1) =~= b@.skip(i + 1));
        i = i + 1;
    }
    if i == b.len() {
        false
    } else if i == a.len() {
        true
    } else {
        a[i] < b[i]
    }
}

/// Two texts are the same but for case if and only if they are as long and differ
/// at most in letters of ASCII, of which one is the capital of the other.
pub proof fn law_same_but_for_case(a: Seq<char>, b: Seq<char>)
    ensures
        same_ignoring_case(a, b) <==> a.len() == b.len() && forall|i: int|
            #![trigger a[i], b[i]]
            0 <= i < a.len() ==> a[i] == b[i] || ('A' <= a[i] && a[i] <= 'Z' && b[i] as int
                == a[i] as int + 32) || ('A' <= b[i] && b[i] <= 'Z' && a[i] as int == b[i] as int
                + 32),
{
    if same_ignoring_case(a, b) {
        assert(lower_text(a).len() == lower_text(b).len());
        assert forall|i: int|
            #![trigger a[i], b[i]]
            0 <= i < a.len() implies a[i] == b[i] || ('A' <= a[i] && a[i] <= 'Z' && b[i] as int
            == a[i] as int + 32) || ('A' <= b[i] && b[i] <= 'Z' && a[i] as int == b[i] as int
            + 32) by {
            assert(lower_text(a)[i] == lower_text(b)[i]);
        }
    }
    if a.len() == b.len() && forall|i: int|
        #![trigger a[i], b[i]]
        0 <= i < a.len() ==> a[i] == b[i] || ('A' <= a[i] && a[i] <= 'Z' && b[i] as int == a[i]
            as int + 32) || ('A' <= b[i] && b[i] <= 'Z' && a[i] as int == b[i] as int + 32) {
        assert forall|i: int| 0 <= i < a.len() implies lower_text(a)[i] == lower_text(b)[i] by {
            assert(a[i] == a[i] && b[i] == b[i]);
        }
        assert(lower_text(a) =~= lower_text(b));
    }
}

/// A text in lower or upper case is as long as it was, and only letters of ASCII
/// of the other case are changed, each to the same letter in that case.
pub proof fn law_case_changes_letters_alone(s: Seq<char>, i: int)
    ensures
        lower_text(s).len() == s.len(),
        upper_text(s).len() == s.len(),
        0 <= i < s.len() ==> (if 'A' <= s[i] && s[i] <= 'Z' {
            lower_text(s)[i] as int == s[i] as int + 32
        } else {
            lower_text(s)[i] == s[i]
        }),
        0 <= i < s.len() ==> (if 'a' <= s[i] && s[i] <= 'z' {
            upper_text(s)[i] as int == s[i] as int - 32
        } else {
            upper_text(s)[i] == s[i]
        }),
{
}

/// A text contains a part if and only if it is something, the part, and
/// something behind it.
pub proof fn law_a_text_contains_its_parts(before: Seq<char>, part: Seq<char>, after: Seq<char>)
    ensures
        contains_text(before + part + after, part),
        forall|s: Seq<char>| #[trigger]
            contains_text(s, part) ==> exists|i: int|
                0 <= i <= s.len() && s == #[trigger] s.take(i) + part + s.skip(i + part.len()),
{
    let s = before + part + after;
    let i = before.len() as int;
    assert(s.subrange(i, i + part.len()) =~= part);
    assert forall|s: Seq<char>| #[trigger] contains_text(s, part) implies exists|i: int|
        0 <= i <= s.len() && s == #[trigger] s.take(i) + part + s.skip(i + part.len()) by {
        let i = choose|i: int|
            0 <= i <= s.len() - part.len() && #[trigger] s.subrange(i, i + part.len()) == part;
        assert(s =~= s.take(i) + s.subrange(i, i + part.len()) + s.skip(i + part.len()));
    }
}

/// Texts are ordered as in a dictionary: by the first character at which they
/// differ, and a text comes before what it begins.
pub proof fn law_texts_are_ordered_by_their_first_difference(a: Seq<char>, b: Seq<char>)
    ensures
        text_before(a, b) <==> exists|k: int|
            #![trigger a.take(k)]
            0 <= k <= a.len() && k < b.len() && a.take(k) == b.take(k) && (k == a.len() || a[k]
                < b[k]),
    decreases a.len(),
{
    if b.len() > 0 && a.len() > 0 && a[0] == b[0] {
        let x = a.skip(1);
        let y = b.skip(1);
        law_texts_are_ordered_by_their_first_difference(x, y);
        if text_before(a, b) {
            let k = choose|k: int|
                #![trigger x.take(k)]
                0 <= k <= x.len() && k < y.len() && x.take(k) == y.take(k) && (k == x.len()
                    || x[k] < y[k]);
            assert forall|i: int| 0 <= i < k + 1 implies #[trigger] a.take(k + 1)[i] == b.take(k + 1)[i] by {
                if i > 0 {
                    assert(x.take(k)[i - 1] == y.take(k)[i - 1]);
                }
            }
            assert(a.take(k + 1) =~= b.take(k + 1));
        }
        if exists|k: int|
            #![trigger a.take(k)]
            0 <= k <= a.len() && k < b.len() && a.take(k) == b.take(k) && (k == a.len() || a[k]
                < b[k]) {
            let k = choose|k: int|
                #![trigger a.take(k)]
                0 <= k <= a.len() && k < b.len() && a.take(k) == b.take(k) && (k == a.len() || a[k]
                    < b[k]);
            assert(k > 0);
            assert forall|i: int| 0 <= i < k - 1 implies #[trigger] x.take(k - 1)[i] == y.take(k - 1)[i] by {
                assert(a.take(k)[i + 1] == b.take(k)[i + 1]);
            }
            assert(x.take(k - 1) =~= y.take(k - 1));
        }
    } else {
        assert(a.take(0) =~= b.take(0));
        if exists|k: int|
            #![trigger a.take(k)]
            0 <= k <= a.len() && k < b.len() && a.take(k) == b.take(k) && (k == a.len() || a[k]
                < b[k]) {
            let k = choose|k: int|
                #![trigger a.take(k)]
                0 <= k <= a.len() && k < b.len() && a.take(k) == b.take(k) && (k == a.len() || a[k]
                    < b[k]);
            if k > 0 {
                assert(a.take(k)[0] == b.take(k)[0]);
            }
        }
    }
}

/// The content of a text that is there is the text; one that is not there has
/// none.
pub proof fn law_optional_texts(s: String)
    ensures
        opt_text(Some(s)) == Some(s@),
        opt_text(None) is None,
        forall|t: &str| #[trigger] opt_str(Some(t)) == Some(t@),
        opt_str(None) is None,
{
}

/// A list of texts has their contents in order.
pub proof fn law_lists_of_texts(list: Seq<String>, i: int)
    ensures
        texts(list).len() == list.len(),
        0 <= i < list.len() ==> texts(list)[i] == list[i]@,
{
}

/// A text loses the white space at its ends, all of it, and nothing else: what
/// stands between the first and the last character that is none stays as it is.
pub proof fn law_trimming_takes_white_space_alone(
    before: Seq<char>,
    kept: Seq<char>,
    after: Seq<char>,
)
    requires
        forall|i: int| 0 <= i < before.len() ==> white_space(#[trigger] before[i]),
        forall|i: int| 0 <= i < after.len() ==> white_space(#[trigger] after[i]),
        kept.len() > 0 ==> !white_space(kept[0]) && !white_space(kept.last()),
    ensures
        trim(before + kept + after) == kept,
        kept.len() > 0 ==> trim_start(before + kept + after) == kept + after,
{
    let s = before + kept + after;
    if kept.len() == 0 {
        assert forall|i: int| 0 <= i < s.len() implies white_space(#[trigger] s[i]) by {
            if i < before.len() {
                assert(s[i] == before[i]);
            } else {
                assert(s[i] == after[i - before.len()]);
            }
        }
        lemma_trim_start(s, Seq::empty());
        assert(s + Seq::<char>::empty() =~= s);
        assert(trim(s) =~= kept);
    } else {
        lemma_trim_start(before, kept + after);
        assert(before + (kept + after) =~= s);
        assert((kept + after)[0] == kept[0]);
        lemma_trim_end(kept, after);
    }
}

proof fn lemma_trim_start(before: Seq<char>, rest: Seq<char>)
    requires
        forall|i: int| 0 <= i < before.len() ==> white_space(#[trigger] before[i]),
        rest.len() > 0 ==> !white_space(rest[0]),
    ensures
        trim_start(before + rest) == rest,
    decreases before.len(),
{
    if before.len() == 0 {
        assert(before + rest =~= rest);
    } else {
        let fewer = before.skip(1);
        assert forall|i: int| 0 <= i < fewer.len() implies white_space(#[trigger] fewer[i]) by {
            assert(fewer[i] == before[i + 1]);
        }
        lemma_trim_start(fewer, rest);
        assert((before + rest).skip(1) =~= fewer + rest);
        assert((before + rest)[0] == before[0]);
    }
}

proof fn lemma_trim_end(kept: Seq<char>, after: Seq<char>)
    requires
        forall|i: int| 0 <= i < after.len() ==> white_space(#[trigger] after[i]),
        kept.len() > 0,
        !white_space(kept.last()),
    ensures
        trim_end(kept + after) == kept,
    decreases after.len(),
{
    if after.len() == 0 {
        assert(kept + after =~= kept);
    } else {
        let fewer = after.drop_last();
        assert forall|i: int| 0 <= i < fewer.len() implies white_space(#[trigger] fewer[i]) by {
            assert(fewer[i] == after[i]);
        }
        lemma_trim_end(kept, fewer);
        assert((kept + after).drop_last() =~= kept + fewer);
        assert((kept + after).last() == after.last());
        assert(after[after.len() - 1] == after.last());
    }
}

/// The white space: the controls from tabulator to carriage return, the space, and
/// the other spaces and line ends of Unicode.
pub proof fn law_what_white_space_is(c: char)
    ensures
        white_space(c) <==> seq![
            9u32,
            10,
            11,
            12,
            13,
            32,
            133,
            160,
            5760,
            8192,
            8193,
            8194,
            8195,
            8196,
            8197,
            8198,
            8199,
            8200,
            8201,
            8202,
            8232,
            8233,
            8239,
            8287,
            12288,
        ].contains(c as u32),
{
    let n = c as u32;
    let all = seq![
        9u32,
        10,
        11,
        12,
        13,
        32,
        133,
        160,
        5760,
        8192,
        8193,
        8194,
        8195,
        8196,
        8197,
        8198,
        8199,
        8200,
        8201,
        8202,
        8232,
        8233,
        8239,
        8287,
        12288,
    ];
    assert(all.len() == 25);
    if white_space(c) {
        let k: int = if n <= 13 {
            n - 9
        } else if n == 32 {
            5
        } else if n == 133 {
            6
        } else if n == 160 {
            7
        } else if n == 5760 {
            8
        } else if n <= 8202 {
            n - 8192 + 9
        } else if n == 8232 {
            20
        } else if n == 8233 {
            21
        } else if n == 8239 {
            22
        } else if n == 8287 {
            23
        } else {
            24
        };
        assert(all[k] == n);
    }
}

/// The first place of a character is behind what does not hold it; where it does
/// not occur, the end.
pub proof fn law_where_a_character_is_found(before: Seq<char>, c: char, after: Seq<char>)
    requires
        !before.contains(c),
    ensures
        first_index(before, c) == before.len(),
        first_index(before + seq![c] + after, c) == before.len(),
    decreases before.len(),
{
    let s = before + seq![c] + after;
    if before.len() > 0 {
        let fewer = before.skip(1);
        assert(before.contains(before[0]));
        assert(!fewer.contains(c)) by {
            if fewer.contains(c) {
                let k = choose|k: int| 0 <= k < fewer.len() && fewer[k] == c;
                assert(before[k + 1] == c);
            }
        }
        law_where_a_character_is_found(fewer, c, after);
        assert(s.skip(1) =~= fewer + seq![c] + after);
        assert(s[0] == before[0]);
    } else {
        assert(s[0] == c);
    }
}

/// A text is split at every separator and nowhere else: what stands before the
/// first one is a piece, and the pieces of what follows it come after; a text
/// without a separator is one piece.
pub proof fn law_a_text_is_split_at_every_separator(
    piece: Seq<char>,
    sep: char,
    rest: Seq<char>,
)
    requires
        !piece.contains(sep),
    ensures
        split_on(piece, sep) == seq![piece],
        split_on(piece + seq![sep] + rest, sep) == seq![piece] + split_on(rest, sep),
{
    law_where_a_character_is_found(piece, sep, rest);
    let s = piece + seq![sep] + rest;
    assert(s.take(piece.len() as int) =~= piece);
    assert(s.skip(piece.len() as int + 1) =~= rest);
}

/// The first word of a text is what stands between the white space before it and
/// the next, or the end.
pub proof fn law_which_word_is_the_first(
    before: Seq<char>,
    word: Seq<char>,
    after: Seq<char>,
)
    requires
        forall|i: int| 0 <= i < before.len() ==> white_space(#[trigger] before[i]),
        forall|i: int| 0 <= i < word.len() ==> !white_space(#[trigger] word[i]),
        after.len() > 0 ==> word.len() > 0 && white_space(after[0]),
    ensures
        first_word(before + word + after) == word,
{
    lemma_trim_start(before, word + after);
    assert(before + word + after =~= before + (word + after));
    lemma_word_at_start(word, after);
}

proof fn lemma_word_at_start(word: Seq<char>, after: Seq<char>)
    requires
        forall|i: int| 0 <= i < word.len() ==> !white_space(#[trigger] word[i]),
        after.len() > 0 ==> white_space(after[0]),
    ensures
        word_at_start(word + after) == word,
    decreases word.len(),
{
    let s = word + after;
    if word.len() == 0 {
        assert(s =~= after);
        assert(word_at_start(s) =~= word);
    } else {
        let fewer = word.skip(1);
        assert forall|i: int| 0 <= i < fewer.len() implies !white_space(#[trigger] fewer[i]) by {
            assert(fewer[i] == word[i + 1]);
        }
        lemma_word_at_start(fewer, after);
        assert(s.skip(1) =~= fewer + after);
        assert(s[0] == word[0]);
        assert(seq![word[0]] + fewer =~= word);
    }
}

/// A number in decimal is read as that number, is made of digits alone, and begins
/// with no zero but where it is zero.
pub proof fn law_decimal_numbers_are_read_back(n: nat)
    ensures
        decimal_value(decimal(n)) == n,
        decimal(n).len() >= 1,
        forall|i: int|
            0 <= i < decimal(n).len() ==> '0' <= #[trigger] decimal(n)[i] && decimal(n)[i] <= '9',
        n > 0 ==> decimal(n)[0] != '0',
    decreases n,
{
    if n < 10 {
        let s = decimal(n);
        assert(s.len() == 1);
        assert(decimal_value(s.drop_last()) == 0);
        assert(s.last() as u32 == 48 + n);
    } else {
        law_decimal_numbers_are_read_back(n / 10);
        let s = decimal(n);
        assert(s.drop_last() =~= decimal(n / 10));
        assert(s.last() as u32 == 48 + n % 10);
        assert forall|i: int| 0 <= i < s.len() implies '0' <= #[trigger] s[i] && s[i] <= '9' by {
            if i < s.len() - 1 {
                assert(s[i] == decimal(n / 10)[i]);
            }
        }
        assert(s[0] == decimal(n / 10)[0]);
    }
}

/// A number is read from its decimal digits, with or without a plus sign and with
/// any zeros before them, unless it is too large.
pub proof fn law_a_number_is_read(n: nat, zeros: nat, max: nat)
    ensures
        parsed_unsigned(Seq::new(zeros, |i: int| '0') + decimal(n), max) == if n <= max {
            Some(n)
        } else {
            None
        },
        parsed_unsigned(seq!['+'] + (Seq::new(zeros, |i: int| '0') + decimal(n)), max) == if n
            <= max {
            Some(n)
        } else {
            None
        },
{
    let none = Seq::new(zeros, |i: int| '0');
    let digits = none + decimal(n);
    law_decimal_numbers_are_read_back(n);
    lemma_zeros_before(zeros, decimal(n));
    assert forall|i: int| 0 <= i < digits.len() implies ascii_digit(#[trigger] digits[i]) by {
        if i >= zeros {
            assert(digits[i] == decimal(n)[i - zeros]);
        }
    }
    assert(ascii_digit(digits[0]));
    assert((seq!['+'] + digits).skip(1) =~= digits);
    assert((seq!['+'] + digits)[0] == '+');
}

proof fn lemma_zeros_before(zeros: nat, digits: Seq<char>)
    ensures
        decimal_value(Seq::new(zeros, |i: int| '0') + digits) == decimal_value(digits),
    decreases digits.len() + zeros,
{
    let none = Seq::new(zeros, |i: int| '0');
    let s = none + digits;
    if digits.len() > 0 {
        lemma_zeros_before(zeros, digits.drop_last());
        assert(s.drop_last() =~= none + digits.drop_last());
        assert(s.last() == digits.last());
    } else if zeros > 0 {
        let fewer = (zeros - 1) as nat;
        lemma_zeros_before(fewer, digits);
        assert(s.drop_last() =~= Seq::new(fewer, |i: int| '0') + digits);
        assert(s.last() == '0');
    } else {
        assert(s =~= digits);
    }
}

/// What holds a character that is no digit is no number, but for one plus sign at
/// its start; neither is what holds no digit, nor a number that is too large.
pub proof fn law_what_is_no_number(s: Seq<char>, max: nat, i: int)
    ensures
        0 <= i < s.len() && !('0' <= s[i] && s[i] <= '9') && (i > 0 || s[i] != '+')
            ==> parsed_unsigned(s, max) is None,
        s.len() == 0 ==> parsed_unsigned(s, max) is None,
        s.len() == 1 && s[0] == '+' ==> parsed_unsigned(s, max) is None,
        parsed_unsigned(s, max) matches Some(n) ==> n <= max,
{
    if 0 <= i < s.len() && !('0' <= s[i] && s[i] <= '9') && (i > 0 || s[i] != '+') {
        let body = unsigned_body(s);
        if s[0] == '+' {
            assert(body[i - 1] == s[i]);
        } else {
            assert(body[i] == s[i]);
        }
    }
}

/// A text is filled up with zeros before it to a width, and no further.
pub proof fn law_zeros_are_put_before(s: Seq<char>, width: nat)
    ensures
        s.len() >= width ==> zero_padded(s, width) == s,
        s.len() < width ==> zero_padded(s, width).len() == width && zero_padded(s, width).skip(
            width - s.len(),
        ) == s && forall|i: int|
            0 <= i < width - s.len() ==> #[trigger] zero_padded(s, width)[i] == '0',
{
    if s.len() < width {
        assert(zero_padded(s, width).skip(width - s.len()) =~= s);
    }
}

/// Bytes in hexadecimal have two small digits each, that of the upper half first.
pub proof fn law_bytes_in_hexadecimal(bytes: Seq<u8>, i: int)
    ensures
        hex_text(bytes).len() == 2 * bytes.len(),
        "0123456789abcdef"@.len() == 16,
        0 <= i < bytes.len() ==> hex_text(bytes)[2 * i] == "0123456789abcdef"@[bytes[i] as int
            / 16],
        0 <= i < bytes.len() ==> hex_text(bytes)[2 * i + 1] == "0123456789abcdef"@[bytes[i] as int
            % 16],
{
    reveal_strlit("0123456789abcdef");
    assert((2 * i) / 2 == i && (2 * i) % 2 == 0);
    assert((2 * i + 1) / 2 == i && (2 * i + 1) % 2 == 1);
    let high = bytes[i] as int / 16;
    let low = bytes[i] as int % 16;
    lemma_hex_digit(high);
    lemma_hex_digit(low);
}

proof fn lemma_hex_digit(n: int)
    requires
        0 <= n < 16,
    ensures
        hex_digit(n) == "0123456789abcdef"@[n],
{
    reveal_strlit("0123456789abcdef");
}

/// What counts as a letter, as a digit and as a hexadecimal digit.
pub proof fn law_classes_of_characters(c: char)
    ensures
        ascii_letter(c) <==> (65 <= c as int <= 90) || (97 <= c as int <= 122),
        ascii_digit(c) <==> 48 <= c as int <= 57,
        hex_char(c) <==> (48 <= c as int <= 57) || (65 <= c as int <= 70) || (97 <= c as int
            <= 102),
        'A' <= c && c <= 'Z' ==> ascii_lower(c) as int == c as int + 32,
        !('A' <= c && c <= 'Z') ==> ascii_lower(c) == c,
        'a' <= c && c <= 'z' ==> ascii_upper(c) as int == c as int - 32,
        !('a' <= c && c <= 'z') ==> ascii_upper(c) == c,
{
}

/// The characters of a list that are taken off the end of a text go, all of them,
/// and nothing else.
pub proof fn law_only_the_end_is_taken_off(kept: Seq<char>, end: Seq<char>, dropped: Seq<char>)
    requires
        forall|i: int| 0 <= i < end.len() ==> dropped.contains(#[trigger] end[i]),
        kept.len() > 0 ==> !dropped.contains(kept.last()),
    ensures
        trim_end_of(kept + end, dropped) == kept,
    decreases end.len(),
{
    if end.len() == 0 {
        assert(kept + end =~= kept);
    } else {
        let fewer = end.drop_last();
        assert forall|i: int| 0 <= i < fewer.len() implies dropped.contains(
            #[trigger] fewer[i],
        ) by {
            assert(fewer[i] == end[i]);
        }
        law_only_the_end_is_taken_off(kept, fewer, dropped);
        assert((kept + end).drop_last() =~= kept + fewer);
        assert((kept + end).last() == end[end.len() - 1]);
    }
}

/// Decimal digits are worth ten times the ones behind them.
pub proof fn law_what_decimal_digits_are_worth(digits: Seq<char>, n: nat)
    requires
        n <= 9,
    ensures
        decimal_value(digits.push((48 + n) as char)) == 10 * decimal_value(digits) + n,
        decimal_value(Seq::empty()) == 0,
        decimal(n).len() == 1,
        decimal(n)[0] as int == 48 + n,
        forall|tens: nat|
            tens > 0 ==> #[trigger] decimal(10 * tens + n) == decimal(tens).push(
                (48 + n) as char,
            ),
{
    let more = digits.push((48 + n) as char);
    assert(more.drop_last() =~= digits);
    assert(more.last() as u32 == 48 + n);
    assert forall|tens: nat| tens > 0 implies #[trigger] decimal(10 * tens + n) == decimal(
        tens,
    ).push((48 + n) as char) by {
        assert((10 * tens + n) / 10 == tens);
        assert((10 * tens + n) % 10 == n);
    }
}

/// A list of texts as characters has their contents in order.
pub proof fn law_lists_of_characters(list: Seq<Vec<char>>, i: int)
    ensures
        char_texts(list).len() == list.len(),
        0 <= i < list.len() ==> char_texts(list)[i] == list[i]@,
{
}

} // verus!
