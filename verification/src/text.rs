//! Reading and writing short texts: trimming, splitting, numbers.

use vstd::prelude::*;

verus! {

// ---------------------------------------------------------------------------
// Characters
// ---------------------------------------------------------------------------

/// The characters with the Unicode property `White_Space`.
pub open spec fn is_white_space(c: char) -> bool {
    let code = c as u32;
    ||| 0x09 <= code <= 0x0D
    ||| code == 0x20
    ||| code == 0x85
    ||| code == 0xA0
    ||| code == 0x1680
    ||| 0x2000 <= code <= 0x200A
    ||| code == 0x2028
    ||| code == 0x2029
    ||| code == 0x202F
    ||| code == 0x205F
    ||| code == 0x3000
}

fn white_space(c: char) -> (r: bool)
    ensures
        r == is_white_space(c),
{
    let code: u32 = c as u32;
    (0x09 <= code && code <= 0x0D) || code == 0x20 || code == 0x85 || code == 0xA0 || code == 0x1680
        || (0x2000 <= code && code <= 0x200A) || code == 0x2028 || code == 0x2029 || code == 0x202F
        || code == 0x205F || code == 0x3000
}

/// Lower case of the ASCII letters; every other character is its own.
pub open spec fn ascii_lower(c: char) -> char {
    if 'A' <= c && c <= 'Z' {
        ((c as u32) + 32) as char
    } else {
        c
    }
}

/// Whether two texts agree but for the case of ASCII letters.
pub open spec fn same_but_case(a: Seq<char>, b: Seq<char>) -> bool {
    &&& a.len() == b.len()
    &&& forall|i: int| 0 <= i < a.len() ==> ascii_lower(#[trigger] a[i]) == ascii_lower(b[i])
}

fn lower(c: char) -> (r: char)
    ensures
        r == ascii_lower(c),
{
    if 'A' <= c && c <= 'Z' {
        (c as u8 + 32) as char
    } else {
        c
    }
}

/// The characters of a string.
pub fn chars_of(s: &str) -> (r: Vec<char>)
    ensures
        r@ == s@,
{
    let mut chars: Vec<char> = Vec::new();
    for c in it: s.chars()
        invariant
            chars@ == it.seq().take(it.index() as int),
    {
        chars.push(c);
    }
    chars
}

/// Whether two strings hold the same characters.
pub fn same_text(a: &str, b: &str) -> (r: bool)
    ensures
        r == (a@ == b@),
{
    let left = chars_of(a);
    let right = chars_of(b);
    if left.len() != right.len() {
        return false;
    }
    let mut i: usize = 0;
    while i < left.len()
        invariant
            i <= left@.len(),
            left@ == a@,
            right@ == b@,
            left@.len() == right@.len(),
            forall|k: int| 0 <= k < i ==> left@[k] == right@[k],
        decreases left@.len() - i,
    {
        if left[i] != right[i] {
            return false;
        }
        i = i + 1;
    }
    assert(a@ =~= b@);
    true
}

/// Whether the characters are those of `word` but for the case of ASCII letters.
pub fn is_word(chars: &[char], word: &str) -> (r: bool)
    ensures
        r == same_but_case(chars@, word@),
{
    let expected = chars_of(word);
    if chars.len() != expected.len() {
        return false;
    }
    let mut i: usize = 0;
    while i < chars.len()
        invariant
            i <= chars@.len(),
            expected@ == word@,
            chars@.len() == expected@.len(),
            forall|k: int| 0 <= k < i ==> ascii_lower(#[trigger] chars@[k]) == ascii_lower(word@[k]),
        decreases chars@.len() - i,
    {
        if lower(chars[i]) != lower(expected[i]) {
            return false;
        }
        i = i + 1;
    }
    true
}

/// What `core::str::from_utf8` reports about bytes that are not UTF-8.
#[verifier::external_type_specification]
#[verifier::external_body]
pub struct ExUtf8Error(core::str::Utf8Error);

/// What `core::str::from_utf8` reports about these bytes.
pub uninterp spec fn utf8_error(bytes: Seq<u8>) -> core::str::Utf8Error;

/// `core::str::from_utf8` succeeds on valid UTF-8 and on nothing else, and then
/// gives the characters that the bytes encode. What it reports otherwise
/// depends on the bytes alone.
pub assume_specification[ core::str::from_utf8 ](bytes: &[u8]) -> (r: Result<
    &str,
    core::str::Utf8Error,
>)
    ensures
        r is Ok <==> vstd::utf8::valid_utf8(bytes@),
        r matches Ok(s) ==> s@ == vstd::utf8::decode_utf8(bytes@),
        r matches Err(error) ==> error == utf8_error(bytes@),
;

/// Reads bytes as UTF-8. `None` when they are not.
pub fn utf8(bytes: &[u8]) -> (r: Option<&str>)
    ensures
        r is Some <==> vstd::utf8::valid_utf8(bytes@),
        r matches Some(s) ==> s@ == vstd::utf8::decode_utf8(bytes@),
{
    match core::str::from_utf8(bytes) {
        Ok(s) => Some(s),
        Err(_) => None,
    }
}

// ---------------------------------------------------------------------------
// Trimming
// ---------------------------------------------------------------------------

/// The text without leading white space.
pub open spec fn trim_start(s: Seq<char>) -> Seq<char>
    decreases s.len(),
{
    if s.len() > 0 && is_white_space(s[0]) {
        trim_start(s.skip(1))
    } else {
        s
    }
}

/// The text without trailing white space.
pub open spec fn trim_end(s: Seq<char>) -> Seq<char>
    decreases s.len(),
{
    if s.len() > 0 && is_white_space(s.last()) {
        trim_end(s.drop_last())
    } else {
        s
    }
}

/// The text without white space at either end.
pub open spec fn trimmed(s: Seq<char>) -> Seq<char> {
    trim_end(trim_start(s))
}

/// Cuts the white space off at both ends.
pub fn trim(chars: &[char]) -> (r: &[char])
    ensures
        r@ == trimmed(chars@),
        r@.len() <= chars@.len(),
{
    let mut from: usize = 0;
    proof {
        assert(chars@.skip(0) =~= chars@);
    }
    while from < chars.len() && white_space(chars[from])
        invariant
            from <= chars@.len(),
            trim_start(chars@) == trim_start(chars@.skip(from as int)),
        decreases chars@.len() - from,
    {
        proof {
            assert(chars@.skip(from as int).skip(1) =~= chars@.skip(from + 1));
        }
        from = from + 1;
    }
    assert(trim_start(chars@) == chars@.skip(from as int));
    let mut to: usize = chars.len();
    proof {
        assert(chars@.subrange(from as int, to as int) =~= chars@.skip(from as int));
    }
    while to > from && white_space(chars[to - 1])
        invariant
            from <= to <= chars@.len(),
            trimmed(chars@) == trim_end(chars@.subrange(from as int, to as int)),
        decreases to,
    {
        proof {
            assert(chars@.subrange(from as int, to as int).drop_last() =~= chars@.subrange(
                from as int,
                to - 1,
            ));
        }
        to = to - 1;
    }
    &chars[from..to]
}

/// Whether a byte is white space in ASCII.
pub open spec fn is_ascii_space(b: u8) -> bool {
    b == 0x20 || b == 0x09 || b == 0x0A || b == 0x0C || b == 0x0D
}

/// The bytes without leading ASCII white space.
pub open spec fn trim_ascii_start(s: Seq<u8>) -> Seq<u8>
    decreases s.len(),
{
    if s.len() > 0 && is_ascii_space(s[0]) {
        trim_ascii_start(s.skip(1))
    } else {
        s
    }
}

/// The bytes without trailing ASCII white space.
pub open spec fn trim_ascii_end(s: Seq<u8>) -> Seq<u8>
    decreases s.len(),
{
    if s.len() > 0 && is_ascii_space(s.last()) {
        trim_ascii_end(s.drop_last())
    } else {
        s
    }
}

/// The bytes without ASCII white space at either end.
pub open spec fn trimmed_ascii(s: Seq<u8>) -> Seq<u8> {
    trim_ascii_end(trim_ascii_start(s))
}

fn ascii_space(b: u8) -> (r: bool)
    ensures
        r == is_ascii_space(b),
{
    b == 0x20 || b == 0x09 || b == 0x0A || b == 0x0C || b == 0x0D
}

/// Cuts the ASCII white space off at both ends.
pub fn trim_ascii(bytes: &[u8]) -> (r: &[u8])
    ensures
        r@ == trimmed_ascii(bytes@),
{
    let mut from: usize = 0;
    proof {
        assert(bytes@.skip(0) =~= bytes@);
    }
    while from < bytes.len() && ascii_space(bytes[from])
        invariant
            from <= bytes@.len(),
            trim_ascii_start(bytes@) == trim_ascii_start(bytes@.skip(from as int)),
        decreases bytes@.len() - from,
    {
        proof {
            assert(bytes@.skip(from as int).skip(1) =~= bytes@.skip(from + 1));
        }
        from = from + 1;
    }
    assert(trim_ascii_start(bytes@) == bytes@.skip(from as int));
    let mut to: usize = bytes.len();
    proof {
        assert(bytes@.subrange(from as int, to as int) =~= bytes@.skip(from as int));
    }
    while to > from && ascii_space(bytes[to - 1])
        invariant
            from <= to <= bytes@.len(),
            trimmed_ascii(bytes@) == trim_ascii_end(bytes@.subrange(from as int, to as int)),
        decreases to,
    {
        proof {
            assert(bytes@.subrange(from as int, to as int).drop_last() =~= bytes@.subrange(
                from as int,
                to - 1,
            ));
        }
        to = to - 1;
    }
    &bytes[from..to]
}

/// Whether bytes are the characters of an ASCII word.
pub open spec fn spells(bytes: Seq<u8>, word: Seq<char>) -> bool {
    &&& bytes.len() == word.len()
    &&& forall|i: int| 0 <= i < bytes.len() ==> #[trigger] bytes[i] as u32 == word[i] as u32
}

/// Whether bytes are the characters of an ASCII word but for their case.
pub open spec fn spells_but_case(bytes: Seq<u8>, word: Seq<char>) -> bool {
    &&& bytes.len() == word.len()
    &&& forall|i: int|
        0 <= i < bytes.len() ==> ascii_lower(#[trigger] bytes[i] as char) == ascii_lower(word[i])
}

/// Whether the bytes are the characters of `word`.
pub fn is_spelling(bytes: &[u8], word: &str) -> (r: bool)
    ensures
        r == spells(bytes@, word@),
{
    let expected = chars_of(word);
    if bytes.len() != expected.len() {
        return false;
    }
    let mut i: usize = 0;
    while i < bytes.len()
        invariant
            i <= bytes@.len(),
            expected@ == word@,
            bytes@.len() == expected@.len(),
            forall|k: int| 0 <= k < i ==> #[trigger] bytes@[k] as u32 == word@[k] as u32,
        decreases bytes@.len() - i,
    {
        if bytes[i] as u32 != expected[i] as u32 {
            return false;
        }
        i = i + 1;
    }
    true
}

/// Whether the bytes are the characters of `word` but for the case of ASCII
/// letters.
pub fn is_spelling_but_case(bytes: &[u8], word: &str) -> (r: bool)
    ensures
        r == spells_but_case(bytes@, word@),
{
    let expected = chars_of(word);
    if bytes.len() != expected.len() {
        return false;
    }
    let mut i: usize = 0;
    while i < bytes.len()
        invariant
            i <= bytes@.len(),
            expected@ == word@,
            bytes@.len() == expected@.len(),
            forall|k: int|
                0 <= k < i ==> ascii_lower(#[trigger] bytes@[k] as char) == ascii_lower(word@[k]),
        decreases bytes@.len() - i,
    {
        if lower(bytes[i] as char) != lower(expected[i]) {
            return false;
        }
        i = i + 1;
    }
    true
}

/// What follows a prefix, if the text begins with it.
pub fn strip_prefix<'a>(s: &'a str, prefix: &str) -> (r: Option<&'a str>)
    ensures
        match r {
            Some(rest) => prefix@.len() <= s@.len() && s@.take(prefix@.len() as int) == prefix@
                && rest@ == s@.skip(prefix@.len() as int),
            None => !(prefix@.len() <= s@.len() && s@.take(prefix@.len() as int) == prefix@),
        },
{
    let chars = chars_of(s);
    let start = chars_of(prefix);
    if start.len() > chars.len() {
        return None;
    }
    let mut i: usize = 0;
    while i < start.len()
        invariant
            i <= start@.len() <= chars@.len(),
            chars@ == s@,
            start@ == prefix@,
            forall|k: int| 0 <= k < i ==> chars@[k] == start@[k],
        decreases start@.len() - i,
    {
        if chars[i] != start[i] {
            assert(s@.take(prefix@.len() as int)[i as int] != prefix@[i as int]);
            return None;
        }
        i = i + 1;
    }
    assert(s@.take(prefix@.len() as int) =~= prefix@);
    let rest: &'a str = s.substring_char(start.len(), chars.len());
    assert(rest@ =~= s@.skip(prefix@.len() as int));
    Some(rest)
}

// ---------------------------------------------------------------------------
// Splitting
// ---------------------------------------------------------------------------

/// The pieces between separators, in order. There is always at least one; two
/// separators in a row have an empty piece between them.
pub open spec fn pieces(s: Seq<char>, separators: Seq<char>) -> Seq<Seq<char>>
    decreases s.len(),
{
    if s.len() == 0 {
        seq![Seq::empty()]
    } else {
        let before = pieces(s.drop_last(), separators);
        if separators.contains(s.last()) {
            before.push(Seq::empty())
        } else {
            before.drop_last().push(before.last().push(s.last()))
        }
    }
}

fn is_one_of(c: char, separators: &[char]) -> (r: bool)
    ensures
        r == separators@.contains(c),
{
    let mut i: usize = 0;
    while i < separators.len()
        invariant
            i <= separators@.len(),
            forall|k: int| 0 <= k < i ==> separators@[k] != c,
        decreases separators@.len() - i,
    {
        if separators[i] == c {
            return true;
        }
        i = i + 1;
    }
    false
}

/// Pieces of a text, each by its bounds.
pub open spec fn bounds_match(s: Seq<char>, bounds: Seq<(usize, usize)>, parts: Seq<Seq<char>>) -> bool {
    &&& bounds.len() == parts.len()
    &&& forall|k: int|
        0 <= k < bounds.len() ==> (#[trigger] bounds[k]).0 <= bounds[k].1 <= s.len() && s.subrange(
            bounds[k].0 as int,
            bounds[k].1 as int,
        ) == parts[k]
}

/// Finds the pieces between separators; each is given by where it starts and
/// where it ends.
pub fn split(chars: &[char], separators: &[char]) -> (r: Vec<(usize, usize)>)
    ensures
        bounds_match(chars@, r@, pieces(chars@, separators@)),
        r@.len() >= 1,
        r@[0].0 == 0,
        r@.len() >= 2 ==> r@[0].1 < chars@.len(),
{
    let mut found: Vec<(usize, usize)> = Vec::new();
    let mut start: usize = 0;
    let mut i: usize = 0;
    proof {
        assert(chars@.take(0) =~= Seq::<char>::empty());
        assert(chars@.subrange(0, 0) =~= Seq::<char>::empty());
    }
    while i < chars.len()
        invariant
            start <= i <= chars@.len(),
            found@.len() == 0 ==> start == 0,
            found@.len() > 0 ==> found@[0].0 == 0 && found@[0].1 < chars@.len(),
            pieces(chars@.take(i as int), separators@).len() == found@.len() + 1,
            bounds_match(
                chars@,
                found@,
                pieces(chars@.take(i as int), separators@).drop_last(),
            ),
            pieces(chars@.take(i as int), separators@).last() == chars@.subrange(
                start as int,
                i as int,
            ),
        decreases chars@.len() - i,
    {
        let ghost before = pieces(chars@.take(i as int), separators@);
        let ghost after = pieces(chars@.take(i + 1), separators@);
        proof {
            assert(chars@.take(i + 1).drop_last() =~= chars@.take(i as int));
            assert(chars@.take(i + 1).last() == chars@[i as int]);
            assert(chars@.subrange(start as int, i + 1) =~= chars@.subrange(
                start as int,
                i as int,
            ).push(chars@[i as int]));
            assert(chars@.subrange(i + 1, i + 1) =~= Seq::<char>::empty());
        }
        if is_one_of(chars[i], separators) {
            found.push((start, i));
            start = i + 1;
            assert(after.drop_last() =~= before);
            assert(before.drop_last().push(before.last()) =~= before);
        } else {
            assert(after.drop_last() =~= before.drop_last());
        }
        i = i + 1;
    }
    let ghost all = pieces(chars@, separators@);
    proof {
        assert(chars@.take(i as int) =~= chars@);
        assert(all.drop_last().push(all.last()) =~= all);
    }
    found.push((start, chars.len()));
    found
}

// ---------------------------------------------------------------------------
// Numbers
// ---------------------------------------------------------------------------

/// Whether a character is a decimal digit.
pub open spec fn is_digit(c: char) -> bool {
    '0' <= c && c <= '9'
}

/// The number that a run of digits writes down.
pub open spec fn digits_value(s: Seq<char>) -> nat
    decreases s.len(),
{
    if s.len() == 0 {
        0
    } else {
        10 * digits_value(s.drop_last()) + (s.last() as u32 - 48) as nat
    }
}

/// The digits of a written number: what follows an optional plus sign.
pub open spec fn unsigned_digits(s: Seq<char>) -> Seq<char> {
    if s.len() > 0 && s[0] == '+' {
        s.skip(1)
    } else {
        s
    }
}

/// Whether a text is a number: an optional plus sign and at least one digit.
pub open spec fn is_number(s: Seq<char>) -> bool {
    &&& unsigned_digits(s).len() > 0
    &&& forall|i: int| 0 <= i < unsigned_digits(s).len() ==> is_digit(#[trigger] unsigned_digits(s)[i])
}

/// The number that a text writes down, if it writes down one up to `max`.
pub open spec fn number_up_to(s: Seq<char>, max: nat) -> Option<nat> {
    if is_number(s) && digits_value(unsigned_digits(s)) <= max {
        Some(digits_value(unsigned_digits(s)))
    } else {
        None
    }
}

proof fn lemma_value_grows(s: Seq<char>, count: int)
    requires
        0 <= count <= s.len(),
        forall|i: int| 0 <= i < s.len() ==> is_digit(#[trigger] s[i]),
    ensures
        digits_value(s.take(count)) <= digits_value(s),
    decreases s.len() - count,
{
    if count < s.len() {
        lemma_value_grows(s, count + 1);
        assert(s.take(count + 1).drop_last() =~= s.take(count));
        assert(s.take(count + 1).last() == s[count]);
    } else {
        assert(s.take(count) =~= s);
    }
}

/// Reads a number no greater than `max`.
pub fn parse_number(chars: &[char], max: u32) -> (r: Option<u32>)
    ensures
        match r {
            Some(n) => number_up_to(chars@, max as nat) == Some(n as nat),
            None => number_up_to(chars@, max as nat) is None,
        },
{
    let start: usize = if chars.len() > 0 && chars[0] == '+' {
        1
    } else {
        0
    };
    let ghost digits = unsigned_digits(chars@);
    assert(digits =~= chars@.skip(start as int));
    if start == chars.len() {
        return None;
    }
    let mut value: u64 = 0;
    let mut i: usize = start;
    proof {
        assert(digits.take(0) =~= Seq::<char>::empty());
    }
    while i < chars.len()
        invariant
            start <= i <= chars@.len(),
            digits == chars@.skip(start as int),
            digits == unsigned_digits(chars@),
            digits.len() > 0,
            value <= max,
            value == digits_value(digits.take(i - start)),
            forall|k: int| 0 <= k < i - start ==> is_digit(#[trigger] digits[k]),
        decreases chars@.len() - i,
    {
        let c: char = chars[i];
        assert(digits[i - start] == c);
        if c < '0' || c > '9' {
            return None;
        }
        proof {
            assert(digits.take(i - start + 1).drop_last() =~= digits.take(i - start));
            assert(digits.take(i - start + 1).last() == c);
        }
        value = 10 * value + (c as u32 - 48) as u64;
        if value > max as u64 {
            proof {
                if is_number(chars@) {
                    lemma_value_grows(digits, i - start + 1);
                }
            }
            return None;
        }
        i = i + 1;
    }
    proof {
        assert(digits.take(i - start) =~= digits);
    }
    Some(value as u32)
}

/// The character of one decimal digit.
pub open spec fn digit(n: nat) -> char {
    (48 + n) as char
}

/// A number in decimal, without leading zeros.
pub open spec fn decimal(n: nat) -> Seq<char>
    decreases n,
{
    if n < 10 {
        seq![digit(n)]
    } else {
        decimal(n / 10).push(digit(n % 10))
    }
}

/// A number in decimal, filled with zeros on the left up to `width`.
pub open spec fn padded(n: nat, width: nat) -> Seq<char> {
    if decimal(n).len() >= width {
        decimal(n)
    } else {
        Seq::new((width - decimal(n).len()) as nat, |i: int| '0') + decimal(n)
    }
}

/// A decimal number is made of digits, which take one byte each.
pub proof fn lemma_decimal_is_digits(n: nat)
    ensures
        decimal(n).len() >= 1,
        forall|i: int| 0 <= i < decimal(n).len() ==> is_digit(#[trigger] decimal(n)[i]),
        crate::bounded::byte_len(decimal(n)) == decimal(n).len(),
    decreases n,
{
    if n >= 10 {
        lemma_decimal_is_digits(n / 10);
    }
    crate::bounded::lemma_byte_len_ascii(decimal(n));
}

/// A 32-bit number has at most ten digits.
pub proof fn lemma_decimal_of_u32(n: u32)
    ensures
        decimal(n as nat).len() <= 10,
{
    reveal_with_fuel(decimal, 10);
}

fn digit_text(n: u64) -> (r: &'static str)
    requires
        n < 10,
    ensures
        r@ == seq![digit(n as nat)],
{
    proof {
        reveal_strlit("0");
        reveal_strlit("1");
        reveal_strlit("2");
        reveal_strlit("3");
        reveal_strlit("4");
        reveal_strlit("5");
        reveal_strlit("6");
        reveal_strlit("7");
        reveal_strlit("8");
        reveal_strlit("9");
    }
    let r: &'static str = match n {
        0 => "0",
        1 => "1",
        2 => "2",
        3 => "3",
        4 => "4",
        5 => "5",
        6 => "6",
        7 => "7",
        8 => "8",
        _ => "9",
    };
    assert(r@ =~= seq![digit(n as nat)]);
    r
}

/// Appends a number in decimal.
pub fn append_decimal(out: &mut String, n: u64)
    ensures
        final(out)@ == old(out)@ + decimal(n as nat),
    decreases n,
{
    if n < 10 {
        out.append(digit_text(n));
    } else {
        append_decimal(out, n / 10);
        let ghost so_far = out@;
        out.append(digit_text(n % 10));
        assert(out@ =~= so_far.push(digit((n % 10) as nat)));
    }
}

/// How many zeros are missing on the left of a number.
fn missing_zeros(n: u64, width: usize) -> (r: usize)
    ensures
        r == (if decimal(n as nat).len() >= width {
            0
        } else {
            width - decimal(n as nat).len()
        }),
{
    if width == 0 {
        return 0;
    }
    let mut rest: u64 = n;
    let mut missing: usize = width - 1;
    while rest >= 10 && missing > 0
        invariant
            missing < width,
            decimal(n as nat).len() == decimal(rest as nat).len() + width - 1 - missing,
        decreases rest,
    {
        rest = rest / 10;
        missing = missing - 1;
    }
    assert(decimal(rest as nat).len() >= 1);
    missing
}

/// Appends a number in decimal, filled with zeros on the left up to `width`.
pub fn append_padded(out: &mut String, n: u64, width: usize)
    ensures
        final(out)@ == old(out)@ + padded(n as nat, width as nat),
{
    let missing: usize = missing_zeros(n, width);
    let ghost start = out@;
    let ghost mut zeros: Seq<char> = Seq::empty();
    let mut written: usize = 0;
    proof {
        assert(start + zeros =~= start);
    }
    while written < missing
        invariant
            written <= missing,
            zeros == Seq::new(written as nat, |i: int| '0'),
            out@ == start + zeros,
        decreases missing - written,
    {
        proof {
            reveal_strlit("0");
        }
        out.append("0");
        written = written + 1;
        proof {
            zeros = zeros.push('0');
            assert(zeros =~= Seq::new(written as nat, |i: int| '0'));
            assert(out@ =~= start + zeros);
        }
    }
    append_decimal(out, n);
    assert(out@ =~= start + padded(n as nat, width as nat));
}

// ---------------------------------------------------------------------------
// What holds of texts
// ---------------------------------------------------------------------------

/// White space is what Unicode calls so: these twenty-five characters.
pub proof fn law_white_space(c: char)
    ensures
        is_white_space(c) <==> (c == '\t' || c == '\n' || c == '\u{B}' || c == '\u{C}' || c == '\r'
            || c == ' ' || c == '\u{85}' || c == '\u{A0}' || c == '\u{1680}' || c == '\u{2000}' || c
            == '\u{2001}' || c == '\u{2002}' || c == '\u{2003}' || c == '\u{2004}' || c
            == '\u{2005}' || c == '\u{2006}' || c == '\u{2007}' || c == '\u{2008}' || c
            == '\u{2009}' || c == '\u{200A}' || c == '\u{2028}' || c == '\u{2029}' || c
            == '\u{202F}' || c == '\u{205F}' || c == '\u{3000}'),
{
}

/// In commands the white space is that of ASCII.
pub proof fn law_ascii_space(b: u8)
    ensures
        is_ascii_space(b) <==> (b as char == ' ' || b as char == '\t' || b as char == '\n' || b as char
            == '\u{C}' || b as char == '\r'),
{
}

/// Whether a text holds nothing but white space.
pub open spec fn is_blank(s: Seq<char>) -> bool {
    forall|i: int| 0 <= i < s.len() ==> is_white_space(#[trigger] s[i])
}

/// Trimming takes off all white space around a text, and nothing of the text.
pub proof fn law_trimming(front: Seq<char>, core: Seq<char>, back: Seq<char>)
    requires
        is_blank(front),
        is_blank(back),
        core.len() > 0 ==> !is_white_space(core[0]) && !is_white_space(core.last()),
    ensures
        trimmed(front + core + back) == core,
{
    if core.len() == 0 {
        lemma_trim_start(front + back, Seq::empty());
        assert(front + core + back =~= (front + back) + Seq::<char>::empty());
        assert(trim_start(Seq::<char>::empty()) == Seq::<char>::empty());
        assert(trim_end(Seq::<char>::empty()) == Seq::<char>::empty());
    } else {
        assert(front + core + back =~= front + (core + back));
        lemma_trim_start(front, core + back);
        assert((core + back)[0] == core[0]);
        lemma_trim_end(core, back);
    }
}

proof fn lemma_trim_start(front: Seq<char>, rest: Seq<char>)
    requires
        is_blank(front),
    ensures
        trim_start(front + rest) == trim_start(rest),
    decreases front.len(),
{
    if front.len() == 0 {
        assert(front + rest =~= rest);
    } else {
        assert((front + rest)[0] == front[0]);
        assert((front + rest).skip(1) =~= front.skip(1) + rest);
        assert forall|i: int| 0 <= i < front.skip(1).len() implies is_white_space(
            #[trigger] front.skip(1)[i],
        ) by {
            assert(front.skip(1)[i] == front[i + 1]);
        }
        lemma_trim_start(front.skip(1), rest);
    }
}

proof fn lemma_trim_end(core: Seq<char>, back: Seq<char>)
    requires
        is_blank(back),
        core.len() > 0,
        !is_white_space(core.last()),
    ensures
        trim_end(core + back) == core,
    decreases back.len(),
{
    if back.len() == 0 {
        assert(core + back =~= core);
    } else {
        assert((core + back).last() == back.last());
        assert((core + back).drop_last() =~= core + back.drop_last());
        assert(is_white_space(back[back.len() - 1]));
        lemma_trim_end(core, back.drop_last());
    }
}

/// Whether octets are nothing but ASCII white space.
pub open spec fn is_ascii_blank(s: Seq<u8>) -> bool {
    forall|i: int| 0 <= i < s.len() ==> is_ascii_space(#[trigger] s[i])
}

/// Trimming octets takes off all ASCII white space around them, and nothing
/// else.
pub proof fn law_ascii_trimming(front: Seq<u8>, core: Seq<u8>, back: Seq<u8>)
    requires
        is_ascii_blank(front),
        is_ascii_blank(back),
        core.len() > 0 ==> !is_ascii_space(core[0]) && !is_ascii_space(core.last()),
    ensures
        trimmed_ascii(front + core + back) == core,
{
    if core.len() == 0 {
        lemma_trim_ascii_start(front + back, Seq::empty());
        assert(front + core + back =~= (front + back) + Seq::<u8>::empty());
        assert(trim_ascii_start(Seq::<u8>::empty()) == Seq::<u8>::empty());
        assert(trim_ascii_end(Seq::<u8>::empty()) == Seq::<u8>::empty());
    } else {
        assert(front + core + back =~= front + (core + back));
        lemma_trim_ascii_start(front, core + back);
        assert((core + back)[0] == core[0]);
        lemma_trim_ascii_end(core, back);
    }
}

proof fn lemma_trim_ascii_start(front: Seq<u8>, rest: Seq<u8>)
    requires
        is_ascii_blank(front),
    ensures
        trim_ascii_start(front + rest) == trim_ascii_start(rest),
    decreases front.len(),
{
    if front.len() == 0 {
        assert(front + rest =~= rest);
    } else {
        assert((front + rest)[0] == front[0]);
        assert((front + rest).skip(1) =~= front.skip(1) + rest);
        assert forall|i: int| 0 <= i < front.skip(1).len() implies is_ascii_space(
            #[trigger] front.skip(1)[i],
        ) by {
            assert(front.skip(1)[i] == front[i + 1]);
        }
        lemma_trim_ascii_start(front.skip(1), rest);
    }
}

proof fn lemma_trim_ascii_end(core: Seq<u8>, back: Seq<u8>)
    requires
        is_ascii_blank(back),
        core.len() > 0,
        !is_ascii_space(core.last()),
    ensures
        trim_ascii_end(core + back) == core,
    decreases back.len(),
{
    if back.len() == 0 {
        assert(core + back =~= core);
    } else {
        assert((core + back).last() == back.last());
        assert((core + back).drop_last() =~= core + back.drop_last());
        assert(is_ascii_space(back[back.len() - 1]));
        lemma_trim_ascii_end(core, back.drop_last());
    }
}

/// Whether two characters are the same, or the same Latin letter in its two
/// sizes, which stand 32 apart.
pub open spec fn same_letter(a: char, b: char) -> bool {
    ||| a == b
    ||| 'A' <= a <= 'Z' && b as u32 == a as u32 + 32
    ||| 'A' <= b <= 'Z' && a as u32 == b as u32 + 32
}

/// Texts are the same but for case when they are of one length and hold the
/// same letters, place by place.
pub proof fn law_case_does_not_matter(a: Seq<char>, b: Seq<char>)
    ensures
        same_but_case(a, b) <==> a.len() == b.len() && forall|i: int|
            0 <= i < a.len() ==> same_letter(#[trigger] a[i], b[i]),
{
    assert forall|x: char, y: char| #[trigger] ascii_lower(x) == #[trigger] ascii_lower(
        y,
    ) <==> same_letter(x, y) by {}
    if same_but_case(a, b) {
        assert forall|i: int| 0 <= i < a.len() implies same_letter(#[trigger] a[i], b[i]) by {
            assert(ascii_lower(a[i]) == ascii_lower(b[i]));
        }
    }
}

/// Octets spell a word in ASCII when they are what the word is in UTF-8.
pub proof fn law_spelling(bytes: Seq<u8>, word: Seq<char>)
    requires
        vstd::utf8::is_ascii_chars(word),
    ensures
        spells(bytes, word) <==> bytes == vstd::utf8::encode_utf8(word),
{
    vstd::utf8::is_ascii_chars_encode_utf8(word);
    if spells(bytes, word) {
        assert(bytes =~= vstd::utf8::encode_utf8(word));
    }
}

/// Octets spell a word but for case when each is the letter of the word in one
/// of its sizes.
pub proof fn law_spelling_but_case(bytes: Seq<u8>, word: Seq<char>)
    ensures
        spells_but_case(bytes, word) <==> bytes.len() == word.len() && forall|i: int|
            0 <= i < bytes.len() ==> same_letter(#[trigger] bytes[i] as char, word[i]),
{
    assert forall|x: char, y: char| #[trigger] ascii_lower(x) == #[trigger] ascii_lower(
        y,
    ) <==> same_letter(x, y) by {}
    if spells_but_case(bytes, word) {
        assert forall|i: int| 0 <= i < bytes.len() implies same_letter(
            #[trigger] bytes[i] as char,
            word[i],
        ) by {
            assert(ascii_lower(bytes[i] as char) == ascii_lower(word[i]));
        }
    }
}

/// A text without separators is one piece.
pub proof fn law_unbroken_text_is_one_piece(s: Seq<char>, separators: Seq<char>)
    requires
        forall|i: int| 0 <= i < s.len() ==> !separators.contains(#[trigger] s[i]),
    ensures
        pieces(s, separators) == seq![s],
    decreases s.len(),
{
    if s.len() == 0 {
        assert(s =~= Seq::<char>::empty());
    } else {
        let before = s.drop_last();
        assert forall|i: int| 0 <= i < before.len() implies !separators.contains(
            #[trigger] before[i],
        ) by {
            assert(before[i] == s[i]);
        }
        law_unbroken_text_is_one_piece(before, separators);
        assert(!separators.contains(s[s.len() - 1]));
        assert(before.push(s.last()) =~= s);
        assert(pieces(s, separators) =~= seq![s]);
    }
}

/// Each separator parts a text: the pieces are those in front of it, then those
/// behind it.
pub proof fn law_separator_parts_a_text(
    front: Seq<char>,
    separator: char,
    back: Seq<char>,
    separators: Seq<char>,
)
    requires
        separators.contains(separator),
    ensures
        pieces(front.push(separator) + back, separators) == pieces(front, separators) + pieces(
            back,
            separators,
        ),
    decreases back.len(),
{
    let whole = front.push(separator) + back;
    lemma_pieces_exist(front, separators);
    lemma_pieces_exist(back, separators);
    if back.len() == 0 {
        assert(whole =~= front.push(separator));
        assert(whole.drop_last() =~= front);
        assert(pieces(whole, separators) =~= pieces(front, separators) + pieces(back, separators));
    } else {
        let shorter = back.drop_last();
        assert(whole.drop_last() =~= front.push(separator) + shorter);
        assert(whole.last() == back.last());
        law_separator_parts_a_text(front, separator, shorter, separators);
        lemma_pieces_exist(shorter, separators);
        assert(pieces(whole, separators) =~= pieces(front, separators) + pieces(back, separators));
    }
}

proof fn lemma_pieces_exist(s: Seq<char>, separators: Seq<char>)
    ensures
        pieces(s, separators).len() >= 1,
    decreases s.len(),
{
    if s.len() > 0 {
        lemma_pieces_exist(s.drop_last(), separators);
    }
}

/// A number below ten is written as its digit.
pub proof fn law_digits(n: nat)
    ensures
        decimal(0) == seq!['0'],
        decimal(1) == seq!['1'],
        decimal(2) == seq!['2'],
        decimal(3) == seq!['3'],
        decimal(4) == seq!['4'],
        decimal(5) == seq!['5'],
        decimal(6) == seq!['6'],
        decimal(7) == seq!['7'],
        decimal(8) == seq!['8'],
        decimal(9) == seq!['9'],
        decimal(n).len() == 1 <==> n < 10,
{
    lemma_decimal_is_digits(n / 10);
}

/// A digit behind a number makes ten times that number and the digit.
pub proof fn law_decimal_appends(n: nat, last: nat)
    requires
        n > 0,
        last < 10,
    ensures
        decimal(10 * n + last) == decimal(n) + decimal(last),
{
    assert((10 * n + last) / 10 == n);
    assert((10 * n + last) % 10 == last);
    assert(decimal(10 * n + last) =~= decimal(n) + decimal(last));
}

/// So many zeros.
pub open spec fn zeros(count: nat) -> Seq<char> {
    Seq::new(count, |i: int| '0')
}

/// A padded number has zeros in front, just as many as it is too short.
pub proof fn law_padding(n: nat, width: nat)
    ensures
        decimal(n).len() >= width ==> padded(n, width) == decimal(n),
        decimal(n).len() < width ==> padded(n, width).len() == width && padded(n, width) == zeros(
            (width - decimal(n).len()) as nat,
        ) + decimal(n),
{
    if decimal(n).len() < width {
        assert(padded(n, width) =~= zeros((width - decimal(n).len()) as nat) + decimal(n));
    }
}

/// A number as it may be written: with or without a plus sign, with any number
/// of zeros in front.
pub open spec fn written_number(plus: bool, leading: nat, n: nat) -> Seq<char> {
    (if plus {
        seq!['+']
    } else {
        Seq::empty()
    }) + zeros(leading) + decimal(n)
}

proof fn lemma_value_of_written(leading: nat, n: nat)
    ensures
        digits_value(zeros(leading) + decimal(n)) == n,
    decreases n,
{
    let s = zeros(leading) + decimal(n);
    lemma_decimal_is_digits(n);
    if n < 10 {
        assert(s.drop_last() =~= zeros(leading));
        lemma_zeros_are_nothing(leading);
    } else {
        assert(s.drop_last() =~= zeros(leading) + decimal(n / 10));
        lemma_value_of_written(leading, n / 10);
        assert(10 * (n / 10) + n % 10 == n);
    }
}

proof fn lemma_zeros_are_nothing(count: nat)
    ensures
        digits_value(zeros(count)) == 0,
    decreases count,
{
    if count > 0 {
        lemma_zeros_are_nothing((count - 1) as nat);
        assert(zeros(count).drop_last() =~= zeros((count - 1) as nat));
    }
}

/// A number is read as what was written, if it is not too large.
pub proof fn law_number_is_read(plus: bool, leading: nat, n: nat, max: nat)
    ensures
        number_up_to(written_number(plus, leading, n), max) == if n <= max {
            Some(n)
        } else {
            None::<nat>
        },
{
    let s = written_number(plus, leading, n);
    let digits = zeros(leading) + decimal(n);
    lemma_decimal_is_digits(n);
    lemma_value_of_written(leading, n);
    if plus {
        assert(s.skip(1) =~= digits);
    } else {
        assert(s =~= digits);
        if leading == 0 {
            assert(is_digit(decimal(n)[0]));
            assert(s[0] == decimal(n)[0]);
        }
    }
    assert(unsigned_digits(s) =~= digits);
}

/// Nothing but a number is read as one.
pub proof fn law_nothing_else_is_a_number(s: Seq<char>, max: nat)
    ensures
        number_up_to(s, max) matches Some(n) ==> n <= max && exists|plus: bool, leading: nat|
            s == #[trigger] written_number(plus, leading, n),
{
    if let Some(n) = number_up_to(s, max) {
        let digits = unsigned_digits(s);
        lemma_digits_are_written(digits);
        let leading = choose|leading: nat| digits == #[trigger] zeros(leading) + decimal(n);
        if s[0] == '+' {
            assert(s =~= seq!['+'] + digits);
            assert(s =~= written_number(true, leading, n));
        } else {
            assert(s =~= written_number(false, leading, n));
        }
    }
}

proof fn lemma_digits_are_written(s: Seq<char>)
    requires
        s.len() > 0,
        forall|i: int| 0 <= i < s.len() ==> is_digit(#[trigger] s[i]),
    ensures
        exists|leading: nat| s == #[trigger] zeros(leading) + decimal(digits_value(s)),
    decreases s.len(),
{
    let last = (s.last() as u32 - 48) as nat;
    assert(is_digit(s[s.len() - 1]));
    let before = s.drop_last();
    if before.len() == 0 {
        assert(digits_value(before) == 0);
        assert(s =~= zeros(0) + decimal(last));
    } else {
        assert forall|i: int| 0 <= i < before.len() implies is_digit(#[trigger] before[i]) by {
            assert(before[i] == s[i]);
        }
        lemma_digits_are_written(before);
        let value = digits_value(before);
        let leading = choose|leading: nat| before == #[trigger] zeros(leading) + decimal(value);
        if value == 0 {
            assert(before =~= zeros(leading + 1));
            assert(s =~= zeros(leading + 1) + decimal(last));
        } else {
            law_decimal_appends(value, last);
            assert(decimal(last) == seq![s.last()]);
            assert(s =~= before + decimal(last));
            assert(s =~= zeros(leading) + decimal(10 * value + last));
        }
    }
}

/// The first piece of a text ends at its first separator, behind which the
/// other pieces stand. A text of one piece is that piece.
pub proof fn law_first_piece(s: Seq<char>, separators: Seq<char>)
    ensures
        ({
            let all = pieces(s, separators);
            let end = all[0].len() as int;
            &&& all.len() >= 1
            &&& forall|i: int| 0 <= i < end ==> !separators.contains(#[trigger] all[0][i])
            &&& all.len() == 1 ==> all[0] == s
            &&& all.len() > 1 ==> end < s.len() && all[0] == s.take(end) && separators.contains(
                s[end],
            ) && pieces(s.skip(end + 1), separators) == all.skip(1)
        }),
    decreases s.len(),
{
    let all = pieces(s, separators);
    if s.len() > 0 {
        let before = s.drop_last();
        let earlier = pieces(before, separators);
        law_first_piece(before, separators);
        let end = earlier[0].len() as int;
        assert(before.push(s.last()) =~= s);
        if earlier.len() == 1 {
            if separators.contains(s.last()) {
                assert(all =~= seq![before, Seq::<char>::empty()]);
                assert(s.take(end) =~= before);
                assert(s.skip(end + 1) =~= Seq::<char>::empty());
                assert(all.skip(1) =~= seq![Seq::<char>::empty()]);
            } else {
                assert(all =~= seq![s]);
                assert forall|i: int| 0 <= i < s.len() implies !separators.contains(
                    #[trigger] s[i],
                ) by {
                    if i < before.len() {
                        assert(earlier[0][i] == s[i]);
                    }
                }
            }
        } else {
            let rest = before.skip(end + 1);
            assert(all[0] == earlier[0]);
            assert(s.take(end) =~= before.take(end));
            assert(s[end] == before[end]);
            assert(s.skip(end + 1) =~= rest.push(s.last()));
            assert(rest.push(s.last()).drop_last() =~= rest);
            assert(earlier.skip(1).last() == earlier.last());
            assert(pieces(s.skip(end + 1), separators) =~= all.skip(1));
        }
    } else {
        assert(s =~= Seq::<char>::empty());
    }
}

} // verus!
