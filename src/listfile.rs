//! The downloadable form of a ranked list: lines of `rank,domain` text.
use vstd::prelude::*;
use vstd::utf8::{decode_utf8, valid_utf8};
use vstd::string::StrSliceExecFns;
use vstd::slice::slice_subrange;
use crate::decimal::{decimal, is_unsigned_text, lemma_decimal_reads_back, parse_u64, unsigned_value};

verus! {

/// Relies on nothing but the type: a transport failure is carried through, never inspected.
#[verifier::external_type_specification]
#[verifier::external_body]
pub struct ExReqwestError(reqwest::Error);

/// Relies on nothing but the type: an I/O failure is carried through, never inspected.
#[verifier::external_type_specification]
#[verifier::external_body]
pub struct ExIoError(std::io::Error);

/// Relies on nothing but the type: a decoding failure is carried through, never inspected.
#[verifier::external_type_specification]
#[verifier::external_body]
pub struct ExUtf8Error(std::str::Utf8Error);

/// Why a list could not be downloaded or read.
#[derive(Debug)]
pub enum DownloadListError {
    /// The request failed, or the service answered with an error status.
    Request(reqwest::Error),
    /// A line of the body could not be read as text.
    ReadLine(std::io::Error),
    /// A line has nothing before its first comma.
    MissingRank,
    /// A line's rank field is not an unsigned integer.
    InvalidRank(std::num::ParseIntError),
    /// A line has no comma, hence no domain field.
    MissingDomain,
}

/// One record of a downloaded list.
#[derive(Clone, Debug, PartialEq, Eq)]
pub struct RankedDomain {
    pub rank: u64,
    pub domain: String,
}

/// The index of the first `x` in `s`, or the length of `s` where there is none.
pub open spec fn position_of<A>(s: Seq<A>, x: A) -> nat
    decreases s.len(),
{
    if s.len() == 0 || s[0] == x {
        0
    } else {
        1 + position_of(s.drop_first(), x)
    }
}

/// The text before the first comma of a line.
pub open spec fn rank_field(line: Seq<char>) -> Seq<char> {
    line.take(position_of(line, ',') as int)
}

pub open spec fn has_domain_field(line: Seq<char>) -> bool {
    position_of(line, ',') < line.len()
}

/// The text between the first and the second comma of a line (or its end).
pub open spec fn domain_field(line: Seq<char>) -> Seq<char> {
    let rest = line.skip(position_of(line, ',') + 1 as int);
    rest.take(position_of(rest, ',') as int)
}

pub open spec fn missing_rank(line: Seq<char>) -> bool {
    rank_field(line).len() == 0
}

pub open spec fn invalid_rank(line: Seq<char>) -> bool {
    !missing_rank(line) && !is_unsigned_text(rank_field(line), u64::MAX as nat)
}

pub open spec fn missing_domain(line: Seq<char>) -> bool {
    !missing_rank(line) && !invalid_rank(line) && !has_domain_field(line)
}

/// A line that reads as a record.
pub open spec fn line_parses(line: Seq<char>) -> bool {
    !missing_rank(line) && !invalid_rank(line) && !missing_domain(line)
}

/// `d` is the record that the line reads as.
pub open spec fn is_record_of(d: RankedDomain, line: Seq<char>) -> bool {
    &&& d.rank == unsigned_value(rank_field(line))
    &&& d.domain@ == domain_field(line)
}

/// `e` is the error that a line that does not parse gives: the first fault, in field order.
pub open spec fn is_fault_of(e: DownloadListError, line: Seq<char>) -> bool {
    if missing_rank(line) {
        e is MissingRank
    } else if invalid_rank(line) {
        e is InvalidRank
    } else {
        e is MissingDomain
    }
}

/// The text `rank,domain` of a record.
pub open spec fn record_line(rank: u64, domain: Seq<char>) -> Seq<char> {
    decimal(rank as nat).push(',') + domain
}

pub proof fn lemma_position_of<A>(s: Seq<A>, x: A, k: int)
    requires
        0 <= k <= s.len(),
        forall|i: int| 0 <= i < k ==> s[i] != x,
        k == s.len() || s[k] == x,
    ensures
        position_of(s, x) == k,
    decreases k,
{
    if k > 0 {
        assert(s[0] != x);
        lemma_position_of(s.drop_first(), x, k - 1);
    }
}

/// The index of the first comma of `s` at or after `from`, or the length of `s`.
fn find_comma(s: &str, from: usize, len: usize) -> (k: usize)
    requires
        len == s@.len(),
        from <= len,
    ensures
        k == from + position_of(s@.skip(from as int), ','),
        from <= k <= len,
{
    let mut i: usize = from;
    while i < len
        invariant
            from <= i <= len,
            len == s@.len(),
            forall|j: int| from <= j < i ==> s@[j] != ',',
        ensures
            from <= i <= len,
            forall|j: int| from <= j < i ==> s@[j] != ',',
            i == len || s@[i as int] == ',',
        decreases len - i,
    {
        if s.get_char(i) == ',' {
            break;
        }
        i = i + 1;
    }
    proof {
        lemma_position_of(s@.skip(from as int), ',', i - from);
    }
    i
}

/// Reads one line of a downloaded list: the rank before the first comma, the domain
/// up to the next comma; whatever follows is ignored.
pub fn parse_line(line: &str) -> (r: Result<RankedDomain, DownloadListError>)
    ensures
        r is Ok <==> line_parses(line@),
        r is Ok ==> is_record_of(r->Ok_0, line@),
        r is Err ==> is_fault_of(r->Err_0, line@),
{
    let len = line.unicode_len();
    let first = find_comma(line, 0, len);
    assert(line@.skip(0) =~= line@);
    if first == 0 {
        return Err(DownloadListError::MissingRank);
    }
    let rank_text = line.substring_char(0, first);
    assert(rank_text@ =~= rank_field(line@));
    let rank = match parse_u64(rank_text) {
        Ok(v) => v,
        Err(e) => {
            return Err(DownloadListError::InvalidRank(e));
        },
    };
    if first == len {
        return Err(DownloadListError::MissingDomain);
    }
    let second = find_comma(line, first + 1, len);
    let domain = line.substring_char(first + 1, second).to_owned();
    let ghost rest = line@.skip(first + 1);
    assert(domain@ =~= rest.take(position_of(rest, ',') as int));
    Ok(RankedDomain { rank, domain })
}

/// A line's bytes without the carriage return that ends a `\r\n` line break.
pub open spec fn strip_cr(line: Seq<u8>) -> Seq<u8> {
    if line.len() > 0 && line.last() == 13u8 {
        line.drop_last()
    } else {
        line
    }
}

/// The lines of a body, as a line reader yields them: split at each `\n`, a `\r`
/// before the `\n` dropped, and no empty line after a final `\n`.
pub open spec fn lines_of(body: Seq<u8>) -> Seq<Seq<u8>>
    decreases body.len(),
    via lines_of_decreases
{
    if body.len() == 0 {
        seq![]
    } else {
        let k = position_of(body, 10u8);
        if k == body.len() {
            seq![body]
        } else {
            seq![strip_cr(body.take(k as int))] + lines_of(body.skip(k + 1 as int))
        }
    }
}

#[via_fn]
proof fn lines_of_decreases(body: Seq<u8>) {
    lemma_position_bounded(body, 10u8);
}

pub proof fn lemma_position_bounded<A>(s: Seq<A>, x: A)
    ensures
        position_of(s, x) <= s.len(),
    decreases s.len(),
{
    if s.len() > 0 && s[0] != x {
        lemma_position_bounded(s.drop_first(), x);
    }
}

/// The first `x` of `s` is at `position_of(s, x)`, where there is one.
pub proof fn lemma_position_is_first<A>(s: Seq<A>, x: A)
    ensures
        forall|i: int| 0 <= i < position_of(s, x) ==> s[i] != x,
        position_of(s, x) < s.len() ==> s[position_of(s, x) as int] == x,
    decreases s.len(),
{
    lemma_position_bounded(s, x);
    if s.len() > 0 && s[0] != x {
        let t = s.drop_first();
        lemma_position_is_first(t, x);
        assert forall|i: int| 0 <= i < position_of(s, x) implies s[i] != x by {
            if i > 0 {
                assert(s[i] == t[i - 1]);
            }
        }
    }
}

/// A body cut right after a line break reads as the lines of its two parts, one
/// after the other: a list can be read piece by piece as it arrives.
pub proof fn lemma_lines_of_split(a: Seq<u8>, b: Seq<u8>)
    requires
        a.len() == 0 || a.last() == 10u8,
    ensures
        lines_of(a + b) == lines_of(a) + lines_of(b),
    decreases a.len(),
{
    if a.len() == 0 {
        assert(a + b =~= b);
        assert(lines_of(a) =~= Seq::<Seq<u8>>::empty());
        assert(lines_of(b) =~= lines_of(a) + lines_of(b));
    } else {
        let ab = a + b;
        let k = position_of(a, 10u8);
        lemma_position_is_first(a, 10u8);
        lemma_position_bounded(a, 10u8);
        if k == a.len() {
            assert(a[a.len() - 1] == 10u8);
        }
        assert(k < a.len());
        assert forall|i: int| 0 <= i < k implies ab[i] != 10u8 by {
            assert(ab[i] == a[i]);
        }
        lemma_position_of(ab, 10u8, k as int);
        let rest = a.skip(k + 1 as int);
        assert(ab.take(k as int) =~= a.take(k as int));
        assert(ab.skip(k + 1 as int) =~= rest + b);
        if rest.len() > 0 {
            assert(rest.last() == a.last());
        }
        lemma_lines_of_split(rest, b);
        assert(lines_of(ab) =~= lines_of(a) + lines_of(b));
    }
}

/// The length of the part of `buf` that ends with its last line break: the lines
/// that are complete.
pub fn complete_lines_len(buf: &[u8]) -> (r: usize)
    ensures
        r <= buf@.len(),
        r == 0 || buf@[r - 1] == 10u8,
        forall|i: int| r <= i < buf@.len() ==> buf@[i] != 10u8,
{
    let mut r: usize = buf.len();
    while r > 0 && buf[r - 1] != 10u8
        invariant
            r <= buf@.len(),
            forall|i: int| r <= i < buf@.len() ==> buf@[i] != 10u8,
        decreases r,
    {
        r = r - 1;
    }
    r
}

/// A line that is text and reads as a record.
pub open spec fn line_readable(line: Seq<u8>) -> bool {
    valid_utf8(line) && line_parses(decode_utf8(line))
}

/// `e` is the error that an unreadable line gives.
pub open spec fn is_line_fault_of(e: DownloadListError, line: Seq<u8>) -> bool {
    if !valid_utf8(line) {
        e is ReadLine
    } else {
        is_fault_of(e, decode_utf8(line))
    }
}

/// Relies on `std::str::from_utf8`: it accepts exactly the valid UTF-8 byte strings,
/// and returns the text that they encode.
#[verifier::external_body]
fn text_of(bytes: &[u8]) -> (r: Result<&str, std::str::Utf8Error>)
    ensures
        r is Ok <==> valid_utf8(bytes@),
        r is Ok ==> r->Ok_0@ == decode_utf8(bytes@),
{
    std::str::from_utf8(bytes)
}

/// Relies on `std::io::Error::new`: a decoding failure becomes an `InvalidData` I/O
/// error, as a line reader reports a line that is not text.
#[verifier::external_body]
fn invalid_data(e: std::str::Utf8Error) -> std::io::Error {
    std::io::Error::new(std::io::ErrorKind::InvalidData, e)
}

/// The index of the first `\n` of `body` at or after `from`, or the length of `body`.
fn find_newline(body: &[u8], from: usize) -> (k: usize)
    requires
        from <= body@.len(),
    ensures
        k == from + position_of(body@.skip(from as int), 10u8),
        from <= k <= body@.len(),
{
    let len = body.len();
    let mut i: usize = from;
    while i < len
        invariant
            from <= i <= len,
            len == body@.len(),
            forall|j: int| from <= j < i ==> body@[j] != 10u8,
        ensures
            from <= i <= len,
            forall|j: int| from <= j < i ==> body@[j] != 10u8,
            i == len || body@[i as int] == 10u8,
        decreases len - i,
    {
        if body[i] == 10u8 {
            break;
        }
        i = i + 1;
    }
    proof {
        lemma_position_of(body@.skip(from as int), 10u8, i - from);
    }
    i
}

/// Reads a downloaded list, line by line, and stops at the first line that is not
/// text or not a record.
pub fn parse_list(body: &[u8]) -> (r: Result<Vec<RankedDomain>, DownloadListError>)
    ensures
        r is Ok <==> forall|i: int|
            0 <= i < lines_of(body@).len() ==> line_readable(#[trigger] lines_of(body@)[i]),
        r is Ok ==> r->Ok_0@.len() == lines_of(body@).len(),
        r is Ok ==> forall|i: int|
            0 <= i < lines_of(body@).len() ==> is_record_of(
                #[trigger] r->Ok_0@[i],
                decode_utf8(lines_of(body@)[i]),
            ),
        r is Err ==> exists|k: int|
            0 <= k < lines_of(body@).len() && (forall|j: int|
                0 <= j < k ==> line_readable(#[trigger] lines_of(body@)[j])) && !line_readable(
                lines_of(body@)[k],
            ) && is_line_fault_of(r->Err_0, lines_of(body@)[k]),
{
    let len = body.len();
    let mut records: Vec<RankedDomain> = Vec::new();
    let mut start: usize = 0;
    let ghost done: Seq<Seq<u8>> = seq![];
    assert(body@.skip(0) =~= body@);
    while start < len
        invariant
            start <= len,
            len == body@.len(),
            lines_of(body@) == done + lines_of(body@.skip(start as int)),
            records@.len() == done.len(),
            forall|i: int| 0 <= i < done.len() ==> line_readable(#[trigger] done[i]),
            forall|i: int|
                0 <= i < done.len() ==> is_record_of(#[trigger] records@[i], decode_utf8(done[i])),
        decreases len - start,
    {
        let ghost rest = body@.skip(start as int);
        let newline = find_newline(body, start);
        let mut end = newline;
        if newline < len && newline > start && body[newline - 1] == 13u8 {
            end = newline - 1;
        }
        let next = if newline < len { newline + 1 } else { len };
        let bytes = slice_subrange(body, start, end);
        let ghost line = bytes@;
        proof {
            assert(rest.len() > 0);
            if newline < len {
                assert(rest.skip(newline - start + 1) =~= body@.skip(next as int));
                assert(line =~= strip_cr(rest.take(newline - start)));
            } else {
                assert(line =~= rest);
                assert(body@.skip(next as int) =~= Seq::<u8>::empty());
            }
            assert(lines_of(rest) =~= seq![line] + lines_of(body@.skip(next as int)));
            assert(lines_of(body@) =~= done.push(line) + lines_of(body@.skip(next as int)));
            assert(lines_of(body@)[done.len() as int] == line);
            assert forall|j: int| 0 <= j < done.len() implies lines_of(body@)[j] == done[j] by {}
        }
        let text = match text_of(bytes) {
            Ok(t) => t,
            Err(e) => {
                return Err(DownloadListError::ReadLine(invalid_data(e)));
            },
        };
        let record = match parse_line(text) {
            Ok(d) => d,
            Err(e) => {
                return Err(e);
            },
        };
        records.push(record);
        proof {
            done = done.push(line);
        }
        start = next;
    }
    assert(body@.skip(start as int) =~= Seq::<u8>::empty());
    assert(lines_of(body@) =~= done);
    Ok(records)
}

/// A line that starts with a comma has an empty rank field: it is missing its rank.
pub proof fn lemma_leading_comma_is_missing_rank(line: Seq<char>)
    requires
        line.len() > 0,
        line[0] == ',',
    ensures
        missing_rank(line),
        !line_parses(line),
{
}

/// A line whose rank field is there but is not an unsigned number has an invalid
/// rank, which is not a missing one.
pub proof fn lemma_non_numeric_rank_is_invalid(line: Seq<char>)
    requires
        rank_field(line).len() > 0,
        !is_unsigned_text(rank_field(line), u64::MAX as nat),
    ensures
        invalid_rank(line),
        !missing_rank(line),
        !line_parses(line),
{
}

/// A line with no comma that holds a valid rank is missing its domain.
pub proof fn lemma_no_comma_is_missing_domain(line: Seq<char>)
    requires
        forall|i: int| 0 <= i < line.len() ==> line[i] != ',',
        is_unsigned_text(line, u64::MAX as nat),
    ensures
        missing_domain(line),
        !line_parses(line),
{
    lemma_position_of(line, ',', line.len() as int);
    assert(rank_field(line) =~= line);
}

/// A record written as `rank,domain`, with no comma in the domain, reads back as itself.
pub proof fn lemma_record_line_round_trip(rank: u64, domain: Seq<char>)
    requires
        forall|i: int| 0 <= i < domain.len() ==> domain[i] != ',',
    ensures
        line_parses(record_line(rank, domain)),
        unsigned_value(rank_field(record_line(rank, domain))) == rank,
        domain_field(record_line(rank, domain)) == domain,
{
    let digits = decimal(rank as nat);
    let line = record_line(rank, domain);
    lemma_decimal_reads_back(rank as nat);
    assert forall|i: int| 0 <= i < digits.len() implies line[i] != ',' by {
        assert(line[i] == digits[i]);
    }
    assert(line[digits.len() as int] == ',');
    lemma_position_of(line, ',', digits.len() as int);
    assert(rank_field(line) =~= digits);
    assert(digits[0] != '+');
    let rest = line.skip(digits.len() + 1 as int);
    assert(rest =~= domain);
    lemma_position_of(rest, ',', domain.len() as int);
    assert(rest.take(domain.len() as int) =~= domain);
}

} // verus!
