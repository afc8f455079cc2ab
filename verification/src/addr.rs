//! The text of network addresses.
use crate::text::{
    begins_with, decimal, decimal_is_digits, decimal_reads_back, fields, fields_are_separated,
    first_field_ends_at_the_separator, hex_number, hexadecimal, hexadecimal_is_digits,
    hexadecimal_reads_back, push_decimal, push_hexadecimal, unsigned,
};
use vstd::prelude::*;

verus! {

broadcast use vstd::string::group_string_axioms;

/// An IPv4 address: its four octets in decimal, with dots between them.
pub open spec fn ipv4_text(octets: Seq<u8>) -> Seq<char> {
    decimal(octets[0] as nat) + "."@ + decimal(octets[1] as nat) + "."@ + decimal(octets[2] as nat)
        + "."@ + decimal(octets[3] as nat)
}

/// The eight segments of an IPv6 address.
pub open spec fn segments(octets: Seq<u8>) -> Seq<u16> {
    Seq::new(8, |i: int| (octets[2 * i] * 256 + octets[2 * i + 1]) as u16)
}

/// How many segments in a row are zero, from the `i`-th on.
pub open spec fn zero_run(s: Seq<u16>, i: int) -> nat
    decreases s.len() - i,
{
    if 0 <= i < s.len() && s[i] == 0 {
        1 + zero_run(s, i + 1)
    } else {
        0
    }
}

/// Where the longest run of zeros that begins in front of the `n`-th segment begins, and its
/// length. Of two equally long ones it is the first.
pub open spec fn longest_zeros(s: Seq<u16>, n: nat) -> (nat, nat)
    decreases n,
{
    if n == 0 {
        (0, 0)
    } else {
        let before = longest_zeros(s, (n - 1) as nat);
        if zero_run(s, n - 1) > before.1 {
            ((n - 1) as nat, zero_run(s, n - 1))
        } else {
            before
        }
    }
}

/// Segments in hexadecimal, with colons between them.
pub open spec fn colon_separated(s: Seq<u16>) -> Seq<char>
    decreases s.len(),
{
    if s.len() == 0 {
        seq![]
    } else if s.len() == 1 {
        hexadecimal(s[0] as nat)
    } else {
        colon_separated(s.drop_last()) + ":"@ + hexadecimal(s.last() as nat)
    }
}

/// Whether an IPv6 address stands for an IPv4 address.
pub open spec fn is_mapped(octets: Seq<u8>) -> bool {
    &&& forall|i: int| 0 <= i < 10 ==> #[trigger] octets[i] == 0
    &&& octets[10] == 0xff
    &&& octets[11] == 0xff
}

/// An IPv6 address in its usual short form: segments in hexadecimal, the longest run of two or
/// more zero segments shortened to two colons, and an address that stands for an IPv4 address
/// with that one in its own form at the end.
pub open spec fn ipv6_text(octets: Seq<u8>) -> Seq<char> {
    let s = segments(octets);
    let (start, len) = longest_zeros(s, 8);
    if is_mapped(octets) {
        "::ffff:"@ + ipv4_text(octets.skip(12))
    } else if len > 1 {
        colon_separated(s.take(start as int)) + "::"@ + colon_separated(s.skip((start + len) as int))
    } else {
        colon_separated(s)
    }
}

/// A run of zeros ends with the address.
proof fn lemma_zero_run(s: Seq<u16>, i: int)
    requires
        0 <= i <= s.len(),
    ensures
        i + zero_run(s, i) <= s.len(),
    decreases s.len() - i,
{
    if i < s.len() && s[i] == 0 {
        lemma_zero_run(s, i + 1);
    }
}

proof fn lemma_longest_zeros(s: Seq<u16>, n: nat)
    requires
        n <= s.len(),
    ensures
        longest_zeros(s, n).0 + longest_zeros(s, n).1 <= s.len(),
    decreases n,
{
    if n > 0 {
        lemma_longest_zeros(s, (n - 1) as nat);
        lemma_zero_run(s, n - 1);
    }
}

/// Appends an IPv4 address, which stands at `at`.
fn push_ipv4(out: &mut String, octets: &[u8], at: usize)
    requires
        at + 4 <= octets@.len(),
    ensures
        final(out)@ == old(out)@ + ipv4_text(octets@.skip(at as int)),
{
    push_decimal(out, octets[at] as u64);
    out.push_str(".");
    push_decimal(out, octets[at + 1] as u64);
    out.push_str(".");
    push_decimal(out, octets[at + 2] as u64);
    out.push_str(".");
    push_decimal(out, octets[at + 3] as u64);
    assert(out@ =~= old(out)@ + ipv4_text(octets@.skip(at as int)));
}

/// The text of an IPv4 address.
pub fn ipv4_string(octets: &[u8]) -> (text: String)
    requires
        octets@.len() >= 4,
    ensures
        text@ == ipv4_text(octets@),
{
    let mut text = String::new();
    push_ipv4(&mut text, octets, 0);
    assert(octets@.skip(0) =~= octets@);
    assert(text@ =~= ipv4_text(octets@));
    text
}

/// Appends the segments `from..to`.
fn push_segments(out: &mut String, s: &Vec<u16>, from: usize, to: usize)
    requires
        from <= to <= s@.len(),
    ensures
        final(out)@ == old(out)@ + colon_separated(s@.subrange(from as int, to as int)),
{
    let mut i: usize = from;
    assert(out@ =~= old(out)@ + colon_separated(s@.subrange(from as int, from as int)));
    while i < to
        invariant
            from <= i <= to <= s@.len(),
            out@ == old(out)@ + colon_separated(s@.subrange(from as int, i as int)),
        decreases to - i,
    {
        let ghost part = s@.subrange(from as int, i + 1);
        assert(part.drop_last() =~= s@.subrange(from as int, i as int));
        if i > from {
            out.push_str(":");
        }
        push_hexadecimal(out, s[i] as u64);
        assert(out@ =~= old(out)@ + colon_separated(part));
        i = i + 1;
    }
}

/// How many segments in a row are zero, from the `i`-th on.
fn zeros_from(s: &Vec<u16>, i: usize) -> (run: usize)
    requires
        i <= s@.len(),
    ensures
        run == zero_run(s@, i as int),
    decreases s@.len() - i,
{
    if i < s.len() && s[i] == 0 {
        proof {
            lemma_zero_run(s@, i + 1);
        }
        1 + zeros_from(s, i + 1)
    } else {
        0
    }
}

/// The text of an IPv6 address.
pub fn ipv6_string(octets: &[u8]) -> (text: String)
    requires
        octets@.len() == 16,
    ensures
        text@ == ipv6_text(octets@),
{
    let mut mapped: bool = octets[10] == 0xff && octets[11] == 0xff;
    let mut i: usize = 0;
    while i < 10
        invariant
            i <= 10,
            octets@.len() == 16,
            mapped == (octets@[10] == 0xff && octets@[11] == 0xff && forall|j: int|
                0 <= j < i ==> #[trigger] octets@[j] == 0),
        decreases 10 - i,
    {
        if octets[i] != 0 {
            mapped = false;
        }
        i = i + 1;
    }
    let mut text = String::new();
    if mapped {
        text.push_str("::ffff:");
        push_ipv4(&mut text, octets, 12);
        assert(text@ =~= ipv6_text(octets@));
        return text;
    }
    let mut s: Vec<u16> = Vec::new();
    let mut k: usize = 0;
    while k < 8
        invariant
            k <= 8,
            octets@.len() == 16,
            s@ == segments(octets@).take(k as int),
        decreases 8 - k,
    {
        let segment: u16 = octets[2 * k] as u16 * 256 + octets[2 * k + 1] as u16;
        s.push(segment);
        k = k + 1;
        assert(s@ =~= segments(octets@).take(k as int));
    }
    assert(s@ =~= segments(octets@));
    let mut start: usize = 0;
    let mut len: usize = 0;
    let mut n: usize = 0;
    while n < 8
        invariant
            n <= 8,
            s@.len() == 8,
            (start as nat, len as nat) == longest_zeros(s@, n as nat),
        decreases 8 - n,
    {
        let run: usize = zeros_from(&s, n);
        if run > len {
            start = n;
            len = run;
        }
        n = n + 1;
    }
    proof {
        lemma_longest_zeros(s@, 8);
    }
    if len > 1 {
        push_segments(&mut text, &s, 0, start);
        text.push_str("::");
        push_segments(&mut text, &s, start + len, 8);
        assert(s@.subrange(0, start as int) =~= s@.take(start as int));
        assert(s@.subrange(start + len, 8) =~= s@.skip(start + len));
        assert(text@ =~= ipv6_text(octets@));
    } else {
        push_segments(&mut text, &s, 0, 8);
        assert(s@.subrange(0, 8) =~= s@);
        assert(text@ =~= ipv6_text(octets@));
    }
    text
}

/// Whether a text is the four numbers of an IPv4 address, with dots between them.
pub open spec fn reads_as_ipv4(text: Seq<char>, octets: Seq<u8>) -> bool {
    let parts = fields(text, '.');
    &&& parts.len() == 4
    &&& forall|i: int| 0 <= i < 4 ==> unsigned(#[trigger] parts[i], 255) == Some(octets[i] as nat)
}

proof fn lemma_decimal_field(n: nat, separator: char)
    requires
        separator == '.',
    ensures
        fields(decimal(n), separator) == seq![decimal(n)],
{
    if decimal(n).contains(separator) {
        let k = choose|k: int| 0 <= k < decimal(n).len() && decimal(n)[k] == separator;
        decimal_is_digits(n, k);
    }
    first_field_ends_at_the_separator(decimal(n), separator, seq![]);
}

/// An IPv4 address reads back from its text, octet by octet.
pub proof fn ipv4_reads_back(octets: Seq<u8>)
    requires
        octets.len() >= 4,
    ensures
        reads_as_ipv4(ipv4_text(octets), octets),
{
    reveal_strlit(".");
    let a = decimal(octets[0] as nat);
    let b = decimal(octets[1] as nat);
    let c = decimal(octets[2] as nat);
    let d = decimal(octets[3] as nat);
    lemma_decimal_field(octets[0] as nat, '.');
    lemma_decimal_field(octets[1] as nat, '.');
    lemma_decimal_field(octets[2] as nat, '.');
    lemma_decimal_field(octets[3] as nat, '.');
    fields_are_separated(a, '.', b);
    fields_are_separated(a + seq!['.'] + b, '.', c);
    fields_are_separated(a + seq!['.'] + b + seq!['.'] + c, '.', d);
    assert(ipv4_text(octets) =~= a + seq!['.'] + b + seq!['.'] + c + seq!['.'] + d);
    decimal_reads_back(octets[0] as nat, 255);
    decimal_reads_back(octets[1] as nat, 255);
    decimal_reads_back(octets[2] as nat, 255);
    decimal_reads_back(octets[3] as nat, 255);
    assert(fields(ipv4_text(octets), '.') =~= seq![a, b, c, d]);
}

/// Whether a text is segments in hexadecimal, with colons between them. No segments have no
/// text.
pub open spec fn reads_as_segments(text: Seq<char>, s: Seq<u16>) -> bool {
    if s.len() == 0 {
        text.len() == 0
    } else {
        &&& fields(text, ':').len() == s.len()
        &&& forall|i: int|
            0 <= i < s.len() ==> hex_number(#[trigger] fields(text, ':')[i]) == Some(s[i] as nat)
    }
}

proof fn lemma_segments_read_back(s: Seq<u16>)
    ensures
        reads_as_segments(colon_separated(s), s),
    decreases s.len(),
{
    if s.len() > 0 {
        let last = hexadecimal(s.last() as nat);
        if last.contains(':') {
            let k = choose|k: int| 0 <= k < last.len() && last[k] == ':';
            hexadecimal_is_digits(s.last() as nat, k);
        }
        first_field_ends_at_the_separator(last, ':', seq![]);
        hexadecimal_reads_back(s.last() as nat);
        if s.len() > 1 {
            reveal_strlit(":");
            let head = s.drop_last();
            lemma_segments_read_back(head);
            fields_are_separated(colon_separated(head), ':', last);
            assert(colon_separated(s) =~= colon_separated(head) + seq![':'] + last);
            let parts = fields(colon_separated(s), ':');
            assert(parts =~= fields(colon_separated(head), ':').push(last));
            assert forall|i: int| 0 <= i < s.len() implies hex_number(#[trigger] parts[i]) == Some(
                s[i] as nat,
            ) by {
                if i < head.len() {
                    assert(parts[i] == fields(colon_separated(head), ':')[i]);
                    assert(head[i] == s[i]);
                }
            }
        } else {
            assert(fields(colon_separated(s), ':')[0] == last);
        }
    }
}

/// A run of zeros reaches exactly as far as there are zeros.
pub proof fn zero_runs_are_maximal(s: Seq<u16>, i: int)
    requires
        0 <= i <= s.len(),
    ensures
        i + zero_run(s, i) <= s.len(),
        forall|k: int| i <= k < i + zero_run(s, i) ==> #[trigger] s[k] == 0,
        i + zero_run(s, i) < s.len() ==> s[i + zero_run(s, i)] != 0,
    decreases s.len() - i,
{
    if i < s.len() && s[i] == 0 {
        zero_runs_are_maximal(s, i + 1);
    }
}

/// The run that is shortened is the longest one, and the first of those that are as long.
pub proof fn longest_zeros_come_first(s: Seq<u16>, n: nat, j: int)
    requires
        n <= s.len(),
        0 <= j < n,
    ensures
        zero_run(s, j) <= longest_zeros(s, n).1,
        j < longest_zeros(s, n).0 ==> zero_run(s, j) < longest_zeros(s, n).1,
        longest_zeros(s, n).1 > 0 ==> longest_zeros(s, n).0 < n && zero_run(
            s,
            longest_zeros(s, n).0 as int,
        ) == longest_zeros(s, n).1,
    decreases n,
{
    let before = longest_zeros(s, (n - 1) as nat);
    if n > 1 {
        if j < n - 1 {
            longest_zeros_come_first(s, (n - 1) as nat, j);
        } else {
            longest_zeros_come_first(s, (n - 1) as nat, 0);
        }
    }
}

/// Whether two texts are the segments in front of and behind a run of two or more zeros.
pub open spec fn is_shortened(
    front: Seq<char>,
    back: Seq<char>,
    s: Seq<u16>,
    start: int,
    len: int,
) -> bool {
    &&& 2 <= len
    &&& 0 <= start <= start + len <= s.len()
    &&& forall|k: int| start <= k < start + len ==> #[trigger] s[k] == 0
    &&& reads_as_segments(front, s.take(start))
    &&& reads_as_segments(back, s.skip(start + len))
}

/// The eight segments of an IPv6 address are its octets in pairs.
pub proof fn segments_are_pairs(octets: Seq<u8>, i: int)
    requires
        octets.len() == 16,
        0 <= i < 8,
    ensures
        segments(octets).len() == 8,
        segments(octets)[i] == 256 * octets[2 * i] + octets[2 * i + 1],
{
}

/// An IPv6 address reads back from its text: an address that stands for an IPv4 address has that
/// one behind its prefix, and any other has its segments in hexadecimal, of which a run of two or
/// more zeros may stand as two colons. Where there is such a run, the longest one does.
pub proof fn ipv6_reads_back(octets: Seq<u8>)
    requires
        octets.len() == 16,
    ensures
        ({
            let text = ipv6_text(octets);
            let s = segments(octets);
            if (forall|i: int| 0 <= i < 10 ==> #[trigger] octets[i] == 0) && octets[10] == 255
                && octets[11] == 255 {
                begins_with(text, "::ffff:"@) && reads_as_ipv4(text.skip(7), octets.skip(12))
            } else {
                ||| {
                    &&& reads_as_segments(text, s)
                    &&& forall|j: int| 0 <= j < 8 ==> #[trigger] zero_run(s, j) < 2
                }
                ||| exists|front: Seq<char>, back: Seq<char>, start: int, len: int|
                    text == front + "::"@ + back && #[trigger] is_shortened(
                        front,
                        back,
                        s,
                        start,
                        len,
                    ) && forall|j: int| 0 <= j < 8 ==> #[trigger] zero_run(s, j) <= len
            }
        }),
{
    reveal_strlit("::ffff:");
    let text = ipv6_text(octets);
    let s = segments(octets);
    if is_mapped(octets) {
        ipv4_reads_back(octets.skip(12));
        assert(text.skip(7) =~= ipv4_text(octets.skip(12)));
        assert(text.take("::ffff:"@.len() as int) =~= "::ffff:"@);
    } else {
        let (start, len) = longest_zeros(s, 8);
        assert forall|j: int| 0 <= j < 8 implies #[trigger] zero_run(s, j) <= len by {
            longest_zeros_come_first(s, 8, j);
        }
        if len > 1 {
            longest_zeros_come_first(s, 8, 0);
            zero_runs_are_maximal(s, start as int);
            lemma_longest_zeros(s, 8);
            let front = colon_separated(s.take(start as int));
            let back = colon_separated(s.skip((start + len) as int));
            lemma_segments_read_back(s.take(start as int));
            lemma_segments_read_back(s.skip((start + len) as int));
            assert(is_shortened(front, back, s, start as int, len as int));
            assert(text == front + "::"@ + back);
        } else {
            lemma_segments_read_back(s);
        }
    }
}

} // verus!
