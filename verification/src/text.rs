//! Text the daemon reads and writes: numerals, words, lines and fields.
//!
//! Texts are modelled as sequences of characters. Every function here states its result
//! over that model, so the modules above can speak of exact command lines and replies.
use vstd::prelude::*;

verus! {

broadcast use vstd::string::group_string_axioms;

/// `String::push` appends one character.
pub assume_specification[ String::push ](text: &mut String, c: char)
    ensures
        final(text)@ == old(text)@.push(c),
;

/// `String::push_str` appends a whole text.
pub assume_specification[ String::push_str ](text: &mut String, other: &str)
    ensures
        final(text)@ == old(text)@ + other@,
;

/// The text that `String::from_utf8_lossy` makes of bytes.
pub uninterp spec fn utf8_lossy(bytes: Seq<u8>) -> Seq<char>;

/// `String::from_utf8_lossy` decodes bytes and puts a replacement character where they are no
/// UTF-8. Its result depends on the bytes alone and has a name, `utf8_lossy`; of bytes that
/// are UTF-8 it is their decoding. Where the replacement characters stand is not stated.
#[verifier::external_body]
pub(crate) fn decode_lossy(bytes: &[u8]) -> (text: String)
    ensures
        text@ == utf8_lossy(bytes@),
        vstd::utf8::valid_utf8(bytes@) ==> text@ == vstd::utf8::decode_utf8(bytes@),
{
    String::from_utf8_lossy(bytes).into_owned()
}

/// `std::str::from_utf8` decodes bytes, and fails exactly if they are no UTF-8.
#[verifier::external_body]
pub(crate) fn decode(bytes: &[u8]) -> (text: Option<String>)
    ensures
        text is Some == vstd::utf8::valid_utf8(bytes@),
        text matches Some(decoded) ==> decoded@ == vstd::utf8::decode_utf8(bytes@),
{
    match std::str::from_utf8(bytes) {
        Ok(decoded) => Some(decoded.to_string()),
        Err(_) => None,
    }
}

/// The texts of a list of strings.
pub open spec fn texts(list: Seq<String>) -> Seq<Seq<char>> {
    Seq::new(list.len(), |i: int| list[i]@)
}

/// The texts of a slice of arguments.
pub open spec fn str_texts(list: Seq<&str>) -> Seq<Seq<char>> {
    Seq::new(list.len(), |i: int| list[i]@)
}

/// Appends copies of `args`.
pub fn push_args(out: &mut Vec<String>, args: &[&str])
    ensures
        texts(final(out)@) == texts(old(out)@) + str_texts(args@),
{
    let ghost before = texts(out@);
    let mut i: usize = 0;
    assert(texts(out@) =~= before + str_texts(args@.take(0)));
    while i < args.len()
        invariant
            i <= args@.len(),
            texts(out@) == before + str_texts(args@.take(i as int)),
        decreases args@.len() - i,
    {
        let ghost now = texts(out@);
        out.push(args[i].to_string());
        assert(texts(out@) =~= now.push(args@[i as int]@));
        assert(texts(out@) =~= before + str_texts(args@.take(i + 1)));
        i = i + 1;
    }
    assert(args@.take(i as int) =~= args@);
}

/// Appends copies of strings.
pub fn push_strings(out: &mut Vec<String>, list: &Vec<String>)
    ensures
        texts(final(out)@) == texts(old(out)@) + texts(list@),
{
    let ghost before = texts(out@);
    let mut i: usize = 0;
    assert(texts(out@) =~= before + texts(list@.take(0)));
    while i < list.len()
        invariant
            i <= list@.len(),
            texts(out@) == before + texts(list@.take(i as int)),
        decreases list@.len() - i,
    {
        let ghost now = texts(out@);
        out.push(list[i].clone());
        assert(texts(out@) =~= now.push(list@[i as int]@));
        i = i + 1;
        assert(texts(out@) =~= before + texts(list@.take(i as int)));
    }
    assert(list@.take(i as int) =~= list@);
}

/// The text of a string that may be missing.
pub open spec fn text_of(text: Option<String>) -> Option<Seq<char>> {
    match text {
        Some(present) => Some(present@),
        None => None,
    }
}

/// The characters of a string, one by one.
pub fn chars_of(text: &str) -> (chars: Vec<char>)
    ensures
        chars@ == text@,
{
    let mut chars: Vec<char> = Vec::new();
    for c in it: text.chars()
        invariant
            it.seq() == text@,
            chars@ == text@.take(it.index()),
    {
        assert(text@.take(it.index() + 1) =~= text@.take(it.index()).push(c));
        chars.push(c);
    }
    assert(text@.take(text@.len() as int) =~= text@);
    chars
}

/// The string made of the characters `from..to`.
pub fn string_of(chars: &Vec<char>, from: usize, to: usize) -> (text: String)
    requires
        from <= to <= chars@.len(),
    ensures
        text@ == chars@.subrange(from as int, to as int),
{
    let mut text = String::new();
    let mut i: usize = from;
    while i < to
        invariant
            from <= i <= to <= chars@.len(),
            text@ == chars@.subrange(from as int, i as int),
        decreases to - i,
    {
        assert(chars@.subrange(from as int, i + 1) =~= chars@.subrange(from as int, i as int).push(
            chars@[i as int],
        ));
        text.push(chars[i]);
        i = i + 1;
    }
    text
}

/// Whether two texts are the same.
pub fn same_text(a: &str, b: &str) -> (same: bool)
    ensures
        same == (a@ == b@),
{
    let left = chars_of(a);
    let right = chars_of(b);
    if left.len() != right.len() {
        return false;
    }
    let mut i: usize = 0;
    while i < left.len()
        invariant
            left@ == a@,
            right@ == b@,
            i <= left@.len() == right@.len(),
            forall|j: int| 0 <= j < i ==> left@[j] == right@[j],
        decreases left@.len() - i,
    {
        if left[i] != right[i] {
            return false;
        }
        i = i + 1;
    }
    assert(left@ =~= right@);
    true
}

/// Whether `prefix` stands at the beginning of `text`.
pub open spec fn begins_with(text: Seq<char>, prefix: Seq<char>) -> bool {
    prefix.len() <= text.len() && text.take(prefix.len() as int) == prefix
}

/// Whether the first `part` in `text` stands at `i`.
pub open spec fn first_part_at(text: Seq<char>, part: Seq<char>, i: int) -> bool {
    &&& 0 <= i <= text.len()
    &&& begins_with(text.skip(i), part)
    &&& forall|j: int| 0 <= j < i ==> !begins_with(#[trigger] text.skip(j), part)
}

fn begins_at(text: &Vec<char>, at: usize, prefix: &Vec<char>) -> (begins: bool)
    requires
        at <= text@.len(),
    ensures
        begins == begins_with(text@.skip(at as int), prefix@),
{
    let ghost rest = text@.skip(at as int);
    let total: usize = text.len();
    if total - at < prefix.len() {
        return false;
    }
    let mut i: usize = 0;
    while i < prefix.len()
        invariant
            i <= prefix@.len() <= rest.len(),
            rest == text@.skip(at as int),
            rest.len() == text@.len() - at,
            at <= text@.len() == total,
            rest.take(i as int) =~= prefix@.take(i as int),
        decreases prefix@.len() - i,
    {
        if text[at + i] != prefix[i] {
            assert(rest.take(prefix@.len() as int)[i as int] != prefix@[i as int]);
            return false;
        }
        assert(rest.take(i + 1) =~= rest.take(i as int).push(rest[i as int]));
        assert(prefix@.take(i + 1) =~= prefix@.take(i as int).push(prefix@[i as int]));
        i = i + 1;
    }
    assert(prefix@.take(i as int) =~= prefix@);
    true
}

/// Whether a text begins with another.
pub fn starts_with(text: &str, prefix: &str) -> (begins: bool)
    ensures
        begins == begins_with(text@, prefix@),
{
    let whole = chars_of(text);
    let sought = chars_of(prefix);
    assert(whole@.skip(0) =~= whole@);
    begins_at(&whole, 0, &sought)
}

/// Finds where the first `part` in a text stands.
pub fn find(text: &Vec<char>, part: &str) -> (found: Option<usize>)
    ensures
        found matches Some(i) ==> first_part_at(text@, part@, i as int),
        found is None ==> forall|i: int| !first_part_at(text@, part@, i),
{
    let sought = chars_of(part);
    let mut i: usize = 0;
    while i < text.len()
        invariant
            sought@ == part@,
            i <= text@.len(),
            forall|j: int| 0 <= j < i ==> !begins_with(#[trigger] text@.skip(j), part@),
        decreases text@.len() - i,
    {
        if begins_at(text, i, &sought) {
            return Some(i);
        }
        i = i + 1;
    }
    if begins_at(text, i, &sought) {
        Some(i)
    } else {
        None
    }
}

/// What follows the last `mark`, or all of a text without one.
pub open spec fn after_last(text: Seq<char>, mark: char) -> Seq<char>
    decreases text.len(),
{
    if text.len() == 0 || text.last() == mark {
        seq![]
    } else {
        after_last(text.drop_last(), mark).push(text.last())
    }
}

proof fn lemma_after_last(text: Seq<char>, mark: char, from: int)
    requires
        0 <= from <= text.len(),
        from > 0 ==> text[from - 1] == mark,
        forall|i: int| from <= i < text.len() ==> #[trigger] text[i] != mark,
    ensures
        after_last(text, mark) == text.skip(from),
    decreases text.len(),
{
    if from < text.len() {
        lemma_after_last(text.drop_last(), mark, from);
        assert(text.drop_last().skip(from).push(text.last()) =~= text.skip(from));
    } else {
        assert(text.skip(from) =~= seq![]);
    }
}

/// What follows the last `mark` in front of `end`.
pub fn last_field(text: &Vec<char>, end: usize, mark: char) -> (field: String)
    requires
        end <= text@.len(),
    ensures
        field@ == after_last(text@.take(end as int), mark),
{
    let mut from: usize = end;
    while from > 0 && text[from - 1] != mark
        invariant
            from <= end <= text@.len(),
            forall|i: int| from <= i < end ==> #[trigger] text@[i] != mark,
        decreases from,
    {
        from = from - 1;
    }
    proof {
        let head = text@.take(end as int);
        lemma_after_last(head, mark, from as int);
        assert(head.skip(from as int) =~= text@.subrange(from as int, end as int));
    }
    string_of(text, from, end)
}

/// The character of one digit, in lower case from ten on.
pub open spec fn digit(d: nat) -> char {
    if d < 10 {
        (48 + d) as u8 as char
    } else {
        (87 + d) as u8 as char
    }
}

/// A number in decimal, without leading zeros.
pub open spec fn decimal(n: nat) -> Seq<char>
    decreases n,
{
    if n < 10 {
        seq![digit(n)]
    } else {
        decimal(n / 10).push(digit(n % 10))
    }
}

/// A number in lower case hexadecimal, without leading zeros.
pub open spec fn hexadecimal(n: nat) -> Seq<char>
    decreases n,
{
    if n < 16 {
        seq![digit(n)]
    } else {
        hexadecimal(n / 16).push(digit(n % 16))
    }
}

/// A number in decimal, with a minus sign in front when it is negative.
pub open spec fn signed_decimal(n: int) -> Seq<char> {
    if n < 0 {
        seq!['-'] + decimal((-n) as nat)
    } else {
        decimal(n as nat)
    }
}

/// The character of one digit below sixteen.
pub fn digit_char(d: u8) -> (c: char)
    requires
        d < 16,
    ensures
        c == digit(d as nat),
{
    if d < 10 {
        (48 + d) as char
    } else {
        (87 + d) as char
    }
}

/// Appends a number in decimal.
pub fn push_decimal(out: &mut String, n: u64)
    ensures
        final(out)@ == old(out)@ + decimal(n as nat),
    decreases n,
{
    if n >= 10 {
        push_decimal(out, n / 10);
    }
    let last: u8 = (n % 10) as u8;
    out.push(digit_char(last));
    assert(out@ =~= old(out)@ + decimal(n as nat));
}

/// Appends a number in hexadecimal.
pub fn push_hexadecimal(out: &mut String, n: u64)
    ensures
        final(out)@ == old(out)@ + hexadecimal(n as nat),
    decreases n,
{
    if n >= 16 {
        push_hexadecimal(out, n / 16);
    }
    let last: u8 = (n % 16) as u8;
    out.push(digit_char(last));
    assert(out@ =~= old(out)@ + hexadecimal(n as nat));
}

/// Appends a signed number in decimal.
pub fn push_signed(out: &mut String, n: i32)
    ensures
        final(out)@ == old(out)@ + signed_decimal(n as int),
{
    if n < 0 {
        let size: i64 = -(n as i64);
        out.push('-');
        push_decimal(out, size as u64);
        assert(out@ =~= old(out)@ + signed_decimal(n as int));
    } else {
        push_decimal(out, n as u64);
    }
}

/// A number in decimal, as a string of its own.
pub fn decimal_string(n: u64) -> (text: String)
    ensures
        text@ == decimal(n as nat),
{
    let mut text = String::new();
    push_decimal(&mut text, n);
    assert(text@ =~= decimal(n as nat));
    text
}

/// Whether a character separates words: the characters with the Unicode White_Space
/// property.
pub open spec fn is_space(c: char) -> bool {
    let n = c as u32;
    ||| 0x9 <= n <= 0xd
    ||| n == 0x20
    ||| n == 0x85
    ||| n == 0xa0
    ||| n == 0x1680
    ||| 0x2000 <= n <= 0x200a
    ||| n == 0x2028
    ||| n == 0x2029
    ||| n == 0x202f
    ||| n == 0x205f
    ||| n == 0x3000
}

/// Whether a character separates words.
pub fn is_whitespace(c: char) -> (space: bool)
    ensures
        space == is_space(c),
{
    let n: u32 = c as u32;
    (0x9 <= n && n <= 0xd) || n == 0x20 || n == 0x85 || n == 0xa0 || n == 0x1680 || (0x2000 <= n
        && n <= 0x200a) || n == 0x2028 || n == 0x2029 || n == 0x202f || n == 0x205f || n == 0x3000
}

/// How many characters stand in front of the first separator of words.
pub open spec fn word_len(s: Seq<char>) -> nat
    decreases s.len(),
{
    if s.len() == 0 || is_space(s[0]) {
        0
    } else {
        1 + word_len(s.drop_first())
    }
}

proof fn lemma_word_len(s: Seq<char>, n: nat)
    requires
        n <= s.len(),
        forall|i: int| 0 <= i < n ==> !is_space(#[trigger] s[i]),
        n < s.len() ==> is_space(s[n as int]),
    ensures
        word_len(s) == n,
    decreases n,
{
    if n > 0 {
        assert forall|i: int| 0 <= i < n - 1 implies !is_space(#[trigger] s.drop_first()[i]) by {
            assert(s.drop_first()[i] == s[i + 1]);
        }
        lemma_word_len(s.drop_first(), (n - 1) as nat);
    }
}

proof fn lemma_word_len_bound(s: Seq<char>)
    ensures
        word_len(s) <= s.len(),
        s.len() > 0 && !is_space(s[0]) ==> word_len(s) > 0,
    decreases s.len(),
{
    if s.len() > 0 && !is_space(s[0]) {
        lemma_word_len_bound(s.drop_first());
    }
}

/// The words of a text: its longest runs of characters that are no white space.
pub open spec fn words(s: Seq<char>) -> Seq<Seq<char>>
    decreases s.len(),
    via words_decreases
{
    if s.len() == 0 {
        seq![]
    } else if is_space(s[0]) {
        words(s.drop_first())
    } else {
        seq![s.take(word_len(s) as int)] + words(s.skip(word_len(s) as int))
    }
}

#[via_fn]
proof fn words_decreases(s: Seq<char>) {
    lemma_word_len_bound(s);
}

/// Splits a text into its words.
pub fn split_whitespace(text: &str) -> (list: Vec<String>)
    ensures
        texts(list@) == words(text@),
{
    let chars = chars_of(text);
    let mut list: Vec<String> = Vec::new();
    let mut i: usize = 0;
    assert(chars@.skip(0) =~= chars@);
    assert(texts(list@) =~= seq![]);
    assert(texts(list@) + words(chars@.skip(0)) =~= words(text@));
    while i < chars.len()
        invariant
            chars@ == text@,
            i <= chars@.len(),
            texts(list@) + words(chars@.skip(i as int)) == words(text@),
        decreases chars@.len() - i,
    {
        let ghost rest = chars@.skip(i as int);
        if is_whitespace(chars[i]) {
            assert(rest.drop_first() =~= chars@.skip(i + 1));
            i = i + 1;
        } else {
            let start: usize = i;
            while i < chars.len() && !is_whitespace(chars[i])
                invariant
                    start <= i <= chars@.len(),
                    forall|j: int| start <= j < i ==> !is_space(#[trigger] chars@[j]),
                decreases chars@.len() - i,
            {
                i = i + 1;
            }
            let word = string_of(&chars, start, i);
            proof {
                lemma_word_len(rest, (i - start) as nat);
                assert(rest.take(i - start) =~= chars@.subrange(start as int, i as int));
                assert(rest.skip(i - start) =~= chars@.skip(i as int));
            }
            let ghost before = texts(list@);
            list.push(word);
            assert(texts(list@) =~= before.push(word@));
            assert(texts(list@) + words(chars@.skip(i as int)) =~= before + words(rest));
        }
    }
    assert(chars@.skip(i as int) =~= seq![]);
    assert(texts(list@) =~= words(text@));
    list
}

/// Whether a character is a decimal digit.
pub open spec fn is_digit(c: char) -> bool {
    '0' <= c <= '9'
}

/// The value of a run of decimal digits.
pub open spec fn digits_value(s: Seq<char>) -> nat
    decreases s.len(),
{
    if s.len() == 0 {
        0
    } else {
        digits_value(s.drop_last()) * 10 + (s.last() as nat - 48) as nat
    }
}

/// The digits of an unsigned numeral, which a plus sign may precede.
pub open spec fn unsigned_digits(s: Seq<char>) -> Seq<char> {
    if s.len() > 0 && s[0] == '+' {
        s.skip(1)
    } else {
        s
    }
}

/// The unsigned number up to `max` that a text holds: one digit or more after an optional
/// plus sign, and nothing else.
pub open spec fn unsigned(s: Seq<char>, max: nat) -> Option<nat> {
    let digits = unsigned_digits(s);
    if digits.len() > 0 && (forall|i: int| 0 <= i < digits.len() ==> is_digit(#[trigger] digits[i]))
        && digits_value(digits) <= max {
        Some(digits_value(digits))
    } else {
        None
    }
}

proof fn lemma_digits_value_grows(s: Seq<char>, n: int)
    requires
        0 <= n <= s.len(),
    ensures
        digits_value(s.take(n)) <= digits_value(s),
    decreases s.len(),
{
    if n < s.len() {
        lemma_digits_value_grows(s.drop_last(), n);
        assert(s.drop_last().take(n) =~= s.take(n));
    } else {
        assert(s.take(n) =~= s);
    }
}

/// Reads an unsigned number of 64 bits.
pub fn parse_u64(text: &str) -> (number: Option<u64>)
    ensures
        number is Some == unsigned(text@, u64::MAX as nat) is Some,
        number is Some ==> number->0 == unsigned(text@, u64::MAX as nat)->0,
{
    let chars = chars_of(text);
    let mut i: usize = 0;
    if chars.len() > 0 && chars[0] == '+' {
        i = 1;
    }
    let start: usize = i;
    let ghost digits = unsigned_digits(text@);
    assert(digits =~= text@.skip(start as int));
    if start == chars.len() {
        return None;
    }
    let mut value: u64 = 0;
    assert(digits.take(0) =~= seq![]);
    while i < chars.len()
        invariant
            chars@ == text@,
            digits == unsigned_digits(text@),
            digits =~= text@.skip(start as int),
            start <= i <= chars@.len(),
            forall|j: int| 0 <= j < i - start ==> is_digit(#[trigger] digits[j]),
            value == digits_value(digits.take(i - start)),
        decreases chars@.len() - i,
    {
        let c: char = chars[i];
        assert(digits[i - start] == c);
        if c < '0' || c > '9' {
            return None;
        }
        let d: u64 = c as u64 - 48;
        proof {
            let next = digits.take(i - start + 1);
            assert(next.drop_last() =~= digits.take(i - start));
            assert(next.last() == c);
            assert(digits_value(next) == value * 10 + d);
            lemma_digits_value_grows(digits, i - start + 1);
        }
        if value > (u64::MAX - d) / 10 {
            return None;
        }
        value = value * 10 + d;
        i = i + 1;
    }
    assert(digits.take(i - start) =~= digits);
    Some(value)
}

/// Reads an unsigned number of 32 bits.
pub fn parse_u32(text: &str) -> (number: Option<u32>)
    ensures
        number is Some == unsigned(text@, u32::MAX as nat) is Some,
        number is Some ==> number->0 == unsigned(text@, u32::MAX as nat)->0,
{
    match parse_u64(text) {
        Some(value) => if value <= u32::MAX as u64 {
            Some(value as u32)
        } else {
            None
        },
        None => None,
    }
}

/// Where the first `mark` stands, or the length when there is none.
pub open spec fn first_at<T>(s: Seq<T>, mark: T) -> nat
    decreases s.len(),
{
    if s.len() == 0 || s[0] == mark {
        0
    } else {
        1 + first_at(s.drop_first(), mark)
    }
}

/// The first mark is found where it stands.
pub proof fn lemma_first_at<T>(s: Seq<T>, mark: T, n: nat)
    requires
        n <= s.len(),
        forall|i: int| 0 <= i < n ==> #[trigger] s[i] != mark,
        n < s.len() ==> s[n as int] == mark,
    ensures
        first_at(s, mark) == n,
    decreases n,
{
    if n > 0 {
        assert forall|i: int| 0 <= i < n - 1 implies #[trigger] s.drop_first()[i] != mark by {
            assert(s.drop_first()[i] == s[i + 1]);
        }
        lemma_first_at(s.drop_first(), mark, (n - 1) as nat);
    }
}

/// The fields of a text between single separators. A text without the separator is one
/// field, and two separators in a row hold an empty field between them.
pub open spec fn fields(s: Seq<char>, separator: char) -> Seq<Seq<char>>
    decreases s.len(),
{
    let n = first_at(s, separator) as int;
    if n >= s.len() {
        seq![s]
    } else {
        seq![s.take(n)] + fields(s.skip(n + 1), separator)
    }
}

/// Splits a text at every `separator`.
pub fn split(text: &str, separator: char) -> (list: Vec<String>)
    ensures
        texts(list@) == fields(text@, separator),
{
    let chars = chars_of(text);
    let mut list: Vec<String> = Vec::new();
    let mut start: usize = 0;
    let mut i: usize = 0;
    assert(chars@.skip(0) =~= chars@);
    assert(texts(list@) + fields(chars@.skip(0), separator) =~= fields(text@, separator));
    while i < chars.len()
        invariant
            chars@ == text@,
            start <= i <= chars@.len(),
            forall|j: int| start <= j < i ==> #[trigger] chars@[j] != separator,
            texts(list@) + fields(chars@.skip(start as int), separator) == fields(text@, separator),
        decreases chars@.len() - i,
    {
        if chars[i] == separator {
            let ghost rest = chars@.skip(start as int);
            let field = string_of(&chars, start, i);
            proof {
                lemma_first_at(rest, separator, (i - start) as nat);
                assert(rest.take(i - start) =~= chars@.subrange(start as int, i as int));
                assert(rest.skip(i - start + 1) =~= chars@.skip(i + 1));
            }
            let ghost before = texts(list@);
            list.push(field);
            assert(texts(list@) =~= before.push(field@));
            start = i + 1;
            assert(texts(list@) + fields(chars@.skip(start as int), separator) =~= before + fields(
                rest,
                separator,
            ));
        }
        i = i + 1;
    }
    let ghost rest = chars@.skip(start as int);
    let field = string_of(&chars, start, chars.len());
    proof {
        lemma_first_at(rest, separator, (i - start) as nat);
        assert(rest =~= chars@.subrange(start as int, i as int));
    }
    let ghost before = texts(list@);
    list.push(field);
    assert(texts(list@) =~= before + seq![rest]);
    list
}

/// The lines of a text. A line ends at a newline, which is no part of it, nor is a carriage
/// return right in front of the newline. What follows the last newline is a line unless it
/// is empty.
pub open spec fn lines<T>(s: Seq<T>, newline: T, carriage_return: T) -> Seq<Seq<T>>
    decreases s.len(),
{
    let n = first_at(s, newline) as int;
    if s.len() == 0 {
        seq![]
    } else if n >= s.len() {
        seq![s]
    } else {
        seq![chomp(s.take(n), carriage_return)] + lines(s.skip(n + 1), newline, carriage_return)
    }
}

/// A line without the carriage return at its end.
pub open spec fn chomp<T>(s: Seq<T>, carriage_return: T) -> Seq<T> {
    if s.len() > 0 && s.last() == carriage_return {
        s.drop_last()
    } else {
        s
    }
}

proof fn lemma_decimal(n: nat)
    ensures
        decimal(n).len() > 0,
        forall|i: int| 0 <= i < decimal(n).len() ==> is_digit(#[trigger] decimal(n)[i]),
        digits_value(decimal(n)) == n,
    decreases n,
{
    if n < 10 {
        assert(decimal(n).drop_last() =~= seq![]);
        assert(digits_value(decimal(n).drop_last()) == 0);
        assert(decimal(n).last() as nat == 48 + n);
    } else {
        lemma_decimal(n / 10);
        assert(decimal(n).drop_last() =~= decimal(n / 10));
        assert(decimal(n).last() as nat == 48 + n % 10);
        assert(is_digit(decimal(n).last()));
        assert forall|i: int| 0 <= i < decimal(n).len() implies is_digit(
            #[trigger] decimal(n)[i],
        ) by {
            assert(i < decimal(n).len() - 1 ==> decimal(n)[i] == decimal(n / 10)[i]);
        }
    }
}

/// A number that is written in decimal reads back as the number. So no two numbers are written
/// alike.
pub proof fn decimal_reads_back(n: nat, max: nat)
    requires
        n <= max,
    ensures
        unsigned(decimal(n), max) == Some(n),
{
    lemma_decimal(n);
    assert(is_digit(decimal(n)[0]));
    assert(unsigned_digits(decimal(n)) == decimal(n));
}

proof fn lemma_word_len_spaces(s: Seq<char>, i: int)
    requires
        0 <= i < word_len(s),
    ensures
        !is_space(s[i]),
    decreases i,
{
    lemma_word_len_bound(s);
    if i > 0 {
        lemma_word_len_spaces(s.drop_first(), i - 1);
        assert(s.drop_first()[i - 1] == s[i]);
    }
}

/// A word is not empty, and no white space stands in it.
pub proof fn words_hold_no_spaces(s: Seq<char>, i: int, j: int)
    requires
        0 <= i < words(s).len(),
    ensures
        words(s)[i].len() > 0,
        0 <= j < words(s)[i].len() ==> !is_space(words(s)[i][j]),
    decreases s.len(),
{
    lemma_word_len_bound(s);
    if is_space(s[0]) {
        words_hold_no_spaces(s.drop_first(), i, j);
    } else if i > 0 {
        let rest = s.skip(word_len(s) as int);
        words_hold_no_spaces(rest, i - 1, j);
        assert(words(s)[i] == words(rest)[i - 1]);
    } else if 0 <= j < word_len(s) {
        lemma_word_len_spaces(s, j);
    }
}

/// A number in decimal has no leading zero.
pub proof fn decimal_has_no_leading_zero(n: nat)
    ensures
        decimal(n).len() > 1 ==> decimal(n)[0] != '0',
        n > 0 ==> decimal(n)[0] != '0',
    decreases n,
{
    if n >= 10 {
        decimal_has_no_leading_zero(n / 10);
        lemma_decimal(n / 10);
        assert(decimal(n)[0] == decimal(n / 10)[0]);
    } else {
        assert(decimal(n)[0] as nat == 48 + n);
    }
}

/// The value of a lower case hexadecimal digit.
pub open spec fn lower_hex_value(c: char) -> Option<nat> {
    if '0' <= c <= '9' {
        Some((c as nat - '0' as nat) as nat)
    } else if 'a' <= c <= 'f' {
        Some((c as nat - 'a' as nat + 10) as nat)
    } else {
        None
    }
}

/// The number that lower case hexadecimal digits stand for.
pub open spec fn hex_number(s: Seq<char>) -> Option<nat>
    decreases s.len(),
{
    if s.len() == 0 {
        Some(0)
    } else {
        match (hex_number(s.drop_last()), lower_hex_value(s.last())) {
            (Some(high), Some(low)) => Some(16 * high + low),
            _ => None,
        }
    }
}

/// A number that is written in hexadecimal reads back as the number, and has no leading zero.
pub proof fn hexadecimal_reads_back(n: nat)
    ensures
        hex_number(hexadecimal(n)) == Some(n),
        hexadecimal(n).len() > 0,
        n > 0 ==> hexadecimal(n)[0] != '0',
    decreases n,
{
    if n < 16 {
        assert(hexadecimal(n).drop_last() =~= seq![]);
        assert(hex_number(hexadecimal(n).drop_last()) == Some(0nat));
        assert(lower_hex_value(digit(n)) == Some(n));
    } else {
        hexadecimal_reads_back(n / 16);
        assert(hexadecimal(n).drop_last() =~= hexadecimal(n / 16));
        assert(hexadecimal(n)[0] == hexadecimal(n / 16)[0]);
        assert(lower_hex_value(digit(n % 16)) == Some(n % 16));
    }
}

/// The number that a decimal numeral with an optional minus sign stands for.
pub open spec fn signed_value(s: Seq<char>) -> int {
    if s.len() > 0 && s[0] == '-' {
        -(digits_value(s.skip(1)) as int)
    } else {
        digits_value(s) as int
    }
}

/// A signed number that is written in decimal reads back as the number.
pub proof fn signed_decimal_reads_back(n: int)
    ensures
        signed_value(signed_decimal(n)) == n,
        signed_decimal(n).len() > 0,
        n >= 0 ==> signed_decimal(n) == decimal(n as nat),
{
    let size = if n < 0 {
        (-n) as nat
    } else {
        n as nat
    };
    lemma_decimal(size);
    if n < 0 {
        assert(signed_decimal(n).skip(1) =~= decimal(size));
    } else {
        assert(is_digit(decimal(size)[0]));
    }
}

/// A run of zeros.
pub open spec fn zeros(count: nat) -> Seq<char> {
    Seq::new(count, |i: int| '0')
}

proof fn lemma_digits(s: Seq<char>) -> (count: nat)
    requires
        s.len() > 0,
        forall|i: int| 0 <= i < s.len() ==> is_digit(#[trigger] s[i]),
    ensures
        s == zeros(count) + decimal(digits_value(s)),
    decreases s.len(),
{
    let d = (s.last() as nat - 48) as nat;
    assert(is_digit(s[s.len() - 1]));
    assert(digit(d) == s.last());
    if s.len() == 1 {
        assert(s.drop_last() =~= seq![]);
        assert(digits_value(s.drop_last()) == 0);
        assert(decimal(d) =~= seq![digit(d)]);
        assert(s =~= zeros(0) + decimal(d));
        0
    } else {
        let head = s.drop_last();
        assert forall|i: int| 0 <= i < head.len() implies is_digit(#[trigger] head[i]) by {
            assert(head[i] == s[i]);
        }
        let count = lemma_digits(head);
        let high = digits_value(head);
        let n = digits_value(s);
        assert(n == high * 10 + d);
        assert(s =~= head.push(digit(d)));
        if high == 0 {
            assert(decimal(0) =~= seq!['0']);
            assert(decimal(n) =~= seq![digit(d)]);
            assert(s =~= zeros(count + 1) + decimal(n));
            count + 1
        } else {
            assert(n / 10 == high && n % 10 == d);
            assert(decimal(n) =~= decimal(high).push(digit(d)));
            assert(s =~= zeros(count) + decimal(n));
            count
        }
    }
}

/// A text that reads as a number is that number in decimal, apart from leading zeros and a plus
/// sign, and the number is within the bound.
pub proof fn numerals_are_decimal(s: Seq<char>, max: nat) -> (count: nat)
    requires
        unsigned(s, max) is Some,
    ensures
        ({
            let numeral = zeros(count) + decimal(unsigned(s, max)->0);
            s == numeral || s == seq!['+'] + numeral
        }),
        unsigned(s, max)->0 <= max,
{
    let digits = unsigned_digits(s);
    let count = lemma_digits(digits);
    if s[0] == '+' {
        assert(s =~= seq!['+'] + digits);
    }
    count
}

/// Numerals of one digit more are accepted or refused by their value alone: a leading zero
/// changes nothing, and a number above the bound is refused.
pub proof fn numerals_are_bounded(n: nat, count: nat, max: nat)
    ensures
        unsigned(zeros(count) + decimal(n), max) == (if n <= max {
            Some(n)
        } else {
            None::<nat>
        }),
    decreases count,
{
    let s = zeros(count) + decimal(n);
    lemma_decimal(n);
    lemma_zeros_value(count, n);
    assert forall|i: int| 0 <= i < s.len() implies is_digit(#[trigger] s[i]) by {
        if i >= count {
            assert(s[i] == decimal(n)[i - count]);
        }
    }
    assert(is_digit(s[0]));
    assert(unsigned_digits(s) == s);
}

proof fn lemma_zeros_value(count: nat, n: nat)
    ensures
        digits_value(zeros(count) + decimal(n)) == n,
    decreases n,
{
    lemma_decimal(n);
    let s = zeros(count) + decimal(n);
    if n < 10 {
        assert(s.drop_last() =~= zeros(count));
        lemma_only_zeros(count);
        assert(s.last() as nat == 48 + n);
    } else {
        lemma_zeros_value(count, n / 10);
        assert(s.drop_last() =~= zeros(count) + decimal(n / 10));
        assert(s.last() as nat == 48 + n % 10);
    }
}

proof fn lemma_only_zeros(count: nat)
    ensures
        digits_value(zeros(count)) == 0,
    decreases count,
{
    if count > 0 {
        lemma_only_zeros((count - 1) as nat);
        assert(zeros(count).drop_last() =~= zeros((count - 1) as nat));
    }
}

/// A text without white space is one word, unless it is empty.
pub proof fn one_word(s: Seq<char>)
    requires
        forall|i: int| 0 <= i < s.len() ==> !is_space(#[trigger] s[i]),
    ensures
        words(s) == (if s.len() == 0 {
            Seq::<Seq<char>>::empty()
        } else {
            seq![s]
        }),
{
    if s.len() > 0 {
        lemma_word_len(s, s.len());
        assert(s.take(s.len() as int) =~= s);
        assert(s.skip(s.len() as int) =~= seq![]);
        assert(words(s.skip(s.len() as int)) =~= seq![]);
        assert(words(s) =~= seq![s]);
    }
}

/// White space separates words: the words of two texts with white space between them are those
/// of the first and then those of the second.
pub proof fn words_are_separated(a: Seq<char>, space: char, b: Seq<char>)
    requires
        is_space(space),
    ensures
        words(a + seq![space] + b) == words(a) + words(b),
    decreases a.len(),
{
    let s = a + seq![space] + b;
    if a.len() == 0 {
        assert(s.drop_first() =~= b);
        assert(words(a) =~= seq![]);
        assert(words(a) + words(b) =~= words(b));
    } else if is_space(a[0]) {
        words_are_separated(a.drop_first(), space, b);
        assert(s.drop_first() =~= a.drop_first() + seq![space] + b);
    } else {
        let n = word_len(a);
        lemma_word_len_bound(a);
        assert forall|i: int| 0 <= i < n implies !is_space(#[trigger] s[i]) by {
            lemma_word_len_spaces(a, i);
            assert(s[i] == a[i]);
        }
        lemma_word_end(a);
        assert(s[n as int] == if n < a.len() { a[n as int] } else { space });
        lemma_word_len(s, n);
        words_are_separated(a.skip(n as int), space, b);
        assert(s.skip(n as int) =~= a.skip(n as int) + seq![space] + b);
        assert(s.take(n as int) =~= a.take(n as int));
        assert(words(s) =~= words(a) + words(b));
    }
}

proof fn lemma_word_end(s: Seq<char>)
    ensures
        word_len(s) < s.len() ==> is_space(s[word_len(s) as int]),
    decreases s.len(),
{
    if s.len() > 0 && !is_space(s[0]) {
        lemma_word_end(s.drop_first());
        lemma_word_len_bound(s.drop_first());
    }
}

/// Texts with a separator between each two of them.
pub open spec fn joined(list: Seq<Seq<char>>, separator: char) -> Seq<char>
    decreases list.len(),
{
    if list.len() == 0 {
        seq![]
    } else if list.len() == 1 {
        list[0]
    } else {
        list[0] + seq![separator] + joined(list.drop_first(), separator)
    }
}

proof fn lemma_first_at_marks<T>(s: Seq<T>, mark: T)
    ensures
        first_at(s, mark) <= s.len(),
        forall|i: int| 0 <= i < first_at(s, mark) ==> #[trigger] s[i] != mark,
        first_at(s, mark) < s.len() ==> s[first_at(s, mark) as int] == mark,
    decreases s.len(),
{
    if s.len() > 0 && s[0] != mark {
        lemma_first_at_marks(s.drop_first(), mark);
        assert forall|i: int| 0 <= i < first_at(s, mark) implies #[trigger] s[i] != mark by {
            assert(i > 0 ==> s[i] == s.drop_first()[i - 1]);
        }
    }
}

/// The fields of a text, joined by the separator, are the text again, and no field holds the
/// separator.
pub proof fn fields_join_to_the_text(s: Seq<char>, separator: char)
    ensures
        joined(fields(s, separator), separator) == s,
        fields(s, separator).len() > 0,
        forall|i: int|
            0 <= i < fields(s, separator).len() ==> !(#[trigger] fields(
                s,
                separator,
            )[i]).contains(separator),
    decreases s.len(),
{
    let n = first_at(s, separator) as int;
    lemma_first_at_marks(s, separator);
    let list = fields(s, separator);
    if n < s.len() {
        let rest = s.skip(n + 1);
        fields_join_to_the_text(rest, separator);
        assert(list.drop_first() =~= fields(rest, separator));
        assert(s.take(n) + seq![separator] + rest =~= s);
        assert(list[0] == s.take(n));
        assert forall|i: int| 0 <= i < list.len() implies !(#[trigger] list[i]).contains(
            separator,
        ) by {
            if i > 0 {
                assert(list[i] == fields(rest, separator)[i - 1]);
            }
        }
    }
}

/// A text without the separator in front of one is the first field, and the fields of what
/// follows come after it.
pub proof fn first_field_ends_at_the_separator(a: Seq<char>, separator: char, b: Seq<char>)
    requires
        !a.contains(separator),
    ensures
        fields(a + seq![separator] + b, separator) == seq![a] + fields(b, separator),
        fields(a, separator) == seq![a],
{
    let s = a + seq![separator] + b;
    assert forall|i: int| 0 <= i < a.len() implies #[trigger] s[i] != separator by {
        assert(s[i] == a[i]);
        assert(a.contains(a[i]));
    }
    lemma_first_at(s, separator, a.len());
    assert(s.take(a.len() as int) =~= a);
    assert(s.skip(a.len() as int + 1) =~= b);
    assert forall|i: int| 0 <= i < a.len() implies #[trigger] a[i] != separator by {
        assert(a.contains(a[i]));
    }
    lemma_first_at(a, separator, a.len());
}

/// A line ends at its newline, without the carriage return in front of it, and the lines of what
/// follows come after it. What follows the last newline is a line only if there is something.
pub proof fn lines_end_at_newlines<T>(a: Seq<T>, newline: T, carriage_return: T, b: Seq<T>)
    requires
        !a.contains(newline),
        newline != carriage_return,
    ensures
        lines(a + seq![newline] + b, newline, carriage_return) == seq![
            if a.len() > 0 && a.last() == carriage_return {
                a.drop_last()
            } else {
                a
            },
        ] + lines(b, newline, carriage_return),
        lines(a, newline, carriage_return) == (if a.len() == 0 {
            Seq::<Seq<T>>::empty()
        } else {
            seq![a]
        }),
{
    let s = a + seq![newline] + b;
    assert forall|i: int| 0 <= i < a.len() implies #[trigger] s[i] != newline by {
        assert(s[i] == a[i]);
        assert(a.contains(a[i]));
    }
    lemma_first_at(s, newline, a.len());
    assert(s.take(a.len() as int) =~= a);
    assert(s.skip(a.len() as int + 1) =~= b);
    assert forall|i: int| 0 <= i < a.len() implies #[trigger] a[i] != newline by {
        assert(a.contains(a[i]));
    }
    lemma_first_at(a, newline, a.len());
}

/// What follows the last mark stands at the end of the text, holds no mark, and a mark stands in
/// front of it unless it is the whole text.
pub proof fn last_part_follows_the_last_mark(text: Seq<char>, mark: char)
    ensures
        ({
            let part = after_last(text, mark);
            let from = text.len() - part.len();
            &&& part.len() <= text.len()
            &&& text.skip(from) == part
            &&& !part.contains(mark)
            &&& from > 0 ==> text[from - 1] == mark
        }),
    decreases text.len(),
{
    if text.len() > 0 && text.last() != mark {
        last_part_follows_the_last_mark(text.drop_last(), mark);
        let before = after_last(text.drop_last(), mark);
        let part = after_last(text, mark);
        let from = text.len() - part.len();
        assert(text.skip(from) =~= part);
        if part.contains(mark) {
            let k = choose|k: int| 0 <= k < part.len() && part[k] == mark;
            assert(k < before.len());
            assert(before.contains(mark));
        }
    } else {
        assert(text.skip(text.len() as int) =~= seq![]);
    }
}

/// A number in decimal is one digit or more, and nothing else.
pub proof fn decimal_is_digits(n: nat, i: int)
    ensures
        decimal(n).len() > 0,
        0 <= i < decimal(n).len() ==> is_digit(decimal(n)[i]),
{
    lemma_decimal(n);
}

/// The fields of two texts with a separator between them are those of the first and then those
/// of the second.
pub proof fn fields_are_separated(a: Seq<char>, separator: char, b: Seq<char>)
    ensures
        fields(a + seq![separator] + b, separator) == fields(a, separator) + fields(b, separator),
    decreases a.len(),
{
    let n = first_at(a, separator) as int;
    lemma_first_at_marks(a, separator);
    if n >= a.len() {
        assert(!a.contains(separator));
        first_field_ends_at_the_separator(a, separator, b);
    } else {
        let head = a.take(n);
        let tail = a.skip(n + 1);
        assert(!head.contains(separator));
        fields_are_separated(tail, separator, b);
        first_field_ends_at_the_separator(head, separator, tail + seq![separator] + b);
        first_field_ends_at_the_separator(head, separator, tail);
        assert(a =~= head + seq![separator] + tail);
        assert(a + seq![separator] + b =~= head + seq![separator] + (tail + seq![separator] + b));
        assert(seq![head] + (fields(tail, separator) + fields(b, separator)) =~= (seq![head]
            + fields(tail, separator)) + fields(b, separator));
    }
}

/// A number in hexadecimal is one lower case digit or more, and nothing else.
pub proof fn hexadecimal_is_digits(n: nat, i: int)
    ensures
        hexadecimal(n).len() > 0,
        0 <= i < hexadecimal(n).len() ==> lower_hex_value(hexadecimal(n)[i]) is Some,
    decreases n,
{
    if n >= 16 {
        hexadecimal_is_digits(n / 16, i);
        assert(lower_hex_value(digit(n % 16)) == Some(n % 16));
    } else {
        assert(lower_hex_value(digit(n)) == Some(n));
    }
}

/// One plus sign may stand in front of a number, and changes nothing.
pub proof fn plus_signs_do_not_matter(n: nat, max: nat)
    requires
        n <= max,
    ensures
        unsigned(seq!['+'] + decimal(n), max) == Some(n),
        unsigned(seq!['+'], max) is None,
        unsigned(seq![], max) is None,
        unsigned(seq!['+', '+'] + decimal(n), max) is None,
{
    lemma_decimal(n);
    assert((seq!['+'] + decimal(n)).skip(1) =~= decimal(n));
    assert(seq!['+'].skip(1) =~= seq![]);
    let twice = seq!['+', '+'] + decimal(n);
    assert(twice.skip(1)[0] == '+');
    assert(!is_digit(unsigned_digits(twice)[0]));
}

} // verus!
