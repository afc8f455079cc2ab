//! The app's user number in the package database.
//!
//! It is looked up for every connection: it changes whenever the app is reinstalled, and a
//! stale one would lock the real app out, or hand root to whatever package inherited it.
use crate::text::{
    chomp, decimal, decimal_is_digits, decimal_reads_back, decode, fields,
    first_field_ends_at_the_separator, lemma_first_at, lines, lines_end_at_newlines, parse_u32,
    same_text, split, texts, unsigned,
};
use vstd::prelude::*;
use vstd::slice::slice_subrange;
use vstd::utf8::{decode_utf8, valid_utf8};

verus! {

broadcast use vstd::string::group_string_axioms;

/// The name of the app's package.
pub open spec fn app_package() -> Seq<char> {
    "wings.v"@
}

/// The lines that are complete: what follows the last newline is left out.
pub open spec fn terminated(bytes: Seq<u8>) -> Seq<u8>
    decreases bytes.len(),
{
    if bytes.len() == 0 || bytes.last() == 0xa {
        bytes
    } else {
        terminated(bytes.drop_last())
    }
}

/// The lines of a package database: all of them, or only those that are complete when the
/// reading broke off.
pub open spec fn database_lines(contents: Seq<u8>, complete: bool) -> Seq<Seq<u8>> {
    lines(
        if complete {
            contents
        } else {
            terminated(contents)
        },
        0xau8,
        0xdu8,
    )
}

/// The user number in lines of the form `<package> <uid> ...`: the first line of the package
/// decides. A line that is no UTF-8 ends the search.
pub open spec fn uid_in(list: Seq<Seq<u8>>, package: Seq<char>) -> Option<nat>
    decreases list.len(),
{
    if list.len() == 0 || !valid_utf8(list[0]) {
        None
    } else {
        let columns = fields(decode_utf8(list[0]), ' ');
        if columns[0] != package {
            uid_in(list.drop_first(), package)
        } else if columns.len() >= 2 {
            unsigned(columns[1], u32::MAX as nat)
        } else {
            None
        }
    }
}

/// The app's user number in the package database, of which `contents` were read, and all of it
/// if `complete`.
pub open spec fn app_number(contents: Seq<u8>, complete: bool) -> Option<u32> {
    match uid_in(database_lines(contents, complete), app_package()) {
        Some(uid) => Some(uid as u32),
        None => None,
    }
}

/// What one line says of a package.
enum Line {
    /// The line is no text.
    Unreadable,
    /// The line is about another package.
    Other,
    /// The line is about the package, which has this user number, if any.
    Found(Option<u32>),
}

proof fn lemma_fields_nonempty(s: Seq<char>)
    ensures
        fields(s, ' ').len() > 0,
{
}

/// Reads one line.
fn read_line(line: &[u8], package: &str) -> (found: Line)
    ensures
        found is Unreadable == !valid_utf8(line@),
        found is Other == (valid_utf8(line@) && fields(decode_utf8(line@), ' ')[0] != package@),
        found matches Line::Found(uid) ==> {
            let columns = fields(decode_utf8(line@), ' ');
            let number = unsigned(columns[1], u32::MAX as nat);
            &&& uid is Some == (columns.len() >= 2 && number is Some)
            &&& uid matches Some(value) ==> value == number->0
        },
{
    let text = match decode(line) {
        Some(text) => text,
        None => return Line::Unreadable,
    };
    let columns = split(text.as_str(), ' ');
    proof {
        lemma_fields_nonempty(text@);
        assert(texts(columns@).len() == columns@.len());
        assert(forall|i: int|
            0 <= i < columns@.len() ==> #[trigger] texts(columns@)[i] == columns@[i]@);
    }
    assert(texts(columns@)[0] == columns@[0]@);
    if !same_text(columns[0].as_str(), package) {
        return Line::Other;
    }
    if columns.len() < 2 {
        return Line::Found(None);
    }
    assert(texts(columns@)[1] == columns@[1]@);
    Line::Found(parse_u32(columns[1].as_str()))
}

/// How many bytes the complete lines have.
fn terminated_len(contents: &[u8]) -> (len: usize)
    ensures
        len <= contents@.len(),
        contents@.take(len as int) == terminated(contents@),
{
    let mut len: usize = contents.len();
    assert(contents@.take(len as int) =~= contents@);
    while len > 0 && contents[len - 1] != 0xa
        invariant
            len <= contents@.len(),
            terminated(contents@.take(len as int)) == terminated(contents@),
        decreases len,
    {
        assert(contents@.take(len as int).drop_last() =~= contents@.take(len - 1));
        len = len - 1;
    }
    len
}

/// The user number of a package in the package database, of which `contents` were read, and
/// all of it if `complete`.
pub fn app_uid(package: &str, contents: &[u8], complete: bool) -> (uid: Option<u32>)
    ensures
        uid is Some == uid_in(database_lines(contents@, complete), package@) is Some,
        uid matches Some(value) ==> value == uid_in(
            database_lines(contents@, complete),
            package@,
        )->0,
{
    let len: usize = if complete {
        contents.len()
    } else {
        terminated_len(contents)
    };
    let data = slice_subrange(contents, 0, len);
    let ghost whole = data@;
    assert(contents@.subrange(0, len as int) =~= contents@.take(len as int));
    assert(complete ==> whole =~= contents@);
    let ghost expected = uid_in(database_lines(contents@, complete), package@);
    let mut start: usize = 0;
    assert(data@.skip(0) =~= data@);
    while start < len
        invariant
            data@.len() == len,
            start <= len,
            uid_in(lines(data@.skip(start as int), 0xau8, 0xdu8), package@) == expected,
            expected == uid_in(database_lines(contents@, complete), package@),
        decreases len - start,
    {
        let ghost rest = data@.skip(start as int);
        let mut end: usize = start;
        while end < len && data[end] != 0xa
            invariant
                start <= end <= len == data@.len(),
                forall|j: int| start <= j < end ==> #[trigger] data@[j] != 0xa,
            decreases len - end,
        {
            end = end + 1;
        }
        proof {
            lemma_first_at(rest, 0xau8, (end - start) as nat);
        }
        let mut stop: usize = end;
        let mut next: usize = end;
        if end < len {
            next = end + 1;
            if end > start && data[end - 1] == 0xd {
                stop = end - 1;
            }
        }
        let line = slice_subrange(data, start, stop);
        proof {
            let list = lines(rest, 0xau8, 0xdu8);
            let tail = lines(data@.skip(next as int), 0xau8, 0xdu8);
            if end < len {
                assert(rest.take(end - start) =~= data@.subrange(start as int, end as int));
                assert(chomp(rest.take(end - start), 0xdu8) =~= line@);
                assert(rest.skip(end - start + 1) =~= data@.skip(next as int));
            } else {
                assert(rest =~= line@);
                assert(data@.skip(next as int) =~= seq![]);
            }
            assert(list =~= seq![line@] + tail);
            assert(list.drop_first() =~= tail);
        }
        match read_line(line, package) {
            Line::Unreadable => return None,
            Line::Other => {},
            Line::Found(uid) => return uid,
        }
        start = next;
    }
    assert(data@.skip(start as int) =~= seq![]);
    None
}

/// Whether a line can be read and is about another package.
pub open spec fn is_other(line: Seq<u8>, package: Seq<char>) -> bool {
    valid_utf8(line) && fields(decode_utf8(line), ' ')[0] != package
}

/// The first line of a package decides its user number: what follows it has no part in that.
pub proof fn first_line_decides(list: Seq<Seq<u8>>, package: Seq<char>, i: int)
    requires
        0 <= i < list.len(),
        forall|j: int| 0 <= j < i ==> is_other(#[trigger] list[j], package),
        valid_utf8(list[i]),
        fields(decode_utf8(list[i]), ' ')[0] == package,
    ensures
        uid_in(list, package) == ({
            let columns = fields(decode_utf8(list[i]), ' ');
            if columns.len() >= 2 {
                unsigned(columns[1], u32::MAX as nat)
            } else {
                None
            }
        }),
    decreases i,
{
    if i > 0 {
        assert(is_other(list[0], package));
        assert forall|j: int| 0 <= j < i - 1 implies is_other(
            #[trigger] list.drop_first()[j],
            package,
        ) by {
            assert(list.drop_first()[j] == list[j + 1]);
        }
        assert(list.drop_first()[i - 1] == list[i]);
        first_line_decides(list.drop_first(), package, i - 1);
    }
}

/// A package without a line has no user number.
pub proof fn missing_packages_have_no_uid(list: Seq<Seq<u8>>, package: Seq<char>)
    requires
        forall|j: int| 0 <= j < list.len() ==> is_other(#[trigger] list[j], package),
    ensures
        uid_in(list, package) is None,
    decreases list.len(),
{
    if list.len() > 0 {
        assert(is_other(list[0], package));
        assert forall|j: int| 0 <= j < list.drop_first().len() implies is_other(
            #[trigger] list.drop_first()[j],
            package,
        ) by {
            assert(list.drop_first()[j] == list[j + 1]);
        }
        missing_packages_have_no_uid(list.drop_first(), package);
    }
}

/// A line of the form `<package> <uid> ...` gives its package that number, whatever follows the
/// number and the line.
pub proof fn entries_give_their_number(
    line: Seq<u8>,
    package: Seq<char>,
    uid: u32,
    tail: Seq<char>,
    rest: Seq<Seq<u8>>,
)
    requires
        valid_utf8(line),
        !package.contains(' '),
        decode_utf8(line) == package + seq![' '] + (decimal(uid as nat) + tail),
        tail.len() > 0 ==> tail[0] == ' ',
    ensures
        uid_in(seq![line] + rest, package) == Some(uid as nat),
{
    let number = decimal(uid as nat);
    let list = seq![line] + rest;
    assert(list[0] == line);
    first_field_ends_at_the_separator(package, ' ', number + tail);
    if number.contains(' ') {
        let k = choose|k: int| 0 <= k < number.len() && number[k] == ' ';
        decimal_is_digits(uid as nat, k);
    }
    decimal_reads_back(uid as nat, u32::MAX as nat);
    if tail.len() == 0 {
        assert(number + tail =~= number);
        first_field_ends_at_the_separator(number, ' ', seq![]);
    } else {
        assert(number + tail =~= number + seq![' '] + tail.skip(1));
        first_field_ends_at_the_separator(number, ' ', tail.skip(1));
    }
    let columns = fields(decode_utf8(line), ' ');
    assert(columns[0] == package);
    assert(columns[1] == number);
}

/// A line about another package, however much of the name they share, says nothing of a package.
pub proof fn other_entries_are_skipped(
    line: Seq<u8>,
    package: Seq<char>,
    other: Seq<char>,
    tail: Seq<char>,
    rest: Seq<Seq<u8>>,
)
    requires
        valid_utf8(line),
        !other.contains(' '),
        other != package,
        decode_utf8(line) == other + seq![' '] + tail,
    ensures
        uid_in(seq![line] + rest, package) == uid_in(rest, package),
{
    let list = seq![line] + rest;
    assert(list[0] == line);
    assert(list.drop_first() =~= rest);
    first_field_ends_at_the_separator(other, ' ', tail);
}

/// The lines of a database end at its newlines. Of one whose reading broke off, what follows the
/// last newline is left out.
pub proof fn database_lines_end_at_newlines(line: Seq<u8>, rest: Seq<u8>, torn: Seq<u8>)
    requires
        !line.contains(0xau8),
        !torn.contains(0xau8),
    ensures
        database_lines(line + seq![0xau8] + rest, true) == seq![
            if line.len() > 0 && line.last() == 0xd {
                line.drop_last()
            } else {
                line
            },
        ] + database_lines(rest, true),
        database_lines(rest + seq![0xau8] + torn, false) == database_lines(
            rest + seq![0xau8],
            true,
        ),
        database_lines(torn, false).len() == 0,
{
    lines_end_at_newlines(line, 0xau8, 0xdu8, rest);
    lemma_terminated(rest + seq![0xau8], torn);
    lemma_terminated(seq![], torn);
    assert(rest + seq![0xau8] + torn =~= (rest + seq![0xau8]) + torn);
    assert(Seq::<u8>::empty() + torn =~= torn);
}

proof fn lemma_terminated(whole: Seq<u8>, torn: Seq<u8>)
    requires
        whole.len() == 0 || whole.last() == 0xa,
        !torn.contains(0xau8),
    ensures
        terminated(whole + torn) == whole,
    decreases torn.len(),
{
    if torn.len() == 0 {
        assert(whole + torn =~= whole);
    } else {
        assert(torn.contains(torn.last()));
        assert((whole + torn).last() == torn.last());
        assert((whole + torn).drop_last() =~= whole + torn.drop_last());
        assert forall|b: u8| torn.drop_last().contains(b) implies torn.contains(b) by {
            let k = choose|k: int| 0 <= k < torn.drop_last().len() && torn.drop_last()[k] == b;
            assert(torn[k] == b);
        }
        lemma_terminated(whole, torn.drop_last());
    }
}

/// A line that is no text ends the search, as the end of the database does.
pub proof fn unreadable_lines_end_the_search(
    line: Seq<u8>,
    rest: Seq<Seq<u8>>,
    package: Seq<char>,
)
    requires
        !valid_utf8(line),
    ensures
        uid_in(seq![line] + rest, package) is None,
        uid_in(seq![], package) is None,
{
    assert((seq![line] + rest)[0] == line);
}

} // verus!
