//! The process id of the browser, out of what a process listing printed.

use crate::text;
use vstd::prelude::*;
use vstd::string::*;

verus! {

/// What a command printed, and whether it said that it succeeded.
#[derive(Debug)]
pub struct CommandOutput {
    pub success: bool,
    pub stdout: Vec<u8>,
}

/// The characters that bytes stand for in UTF-8, with replacement characters
/// for what is not UTF-8.
pub uninterp spec fn utf8_lossy(bytes: Seq<u8>) -> Seq<char>;

/// `String::from_utf8_lossy`: the text that the bytes are in UTF-8. Where they
/// are not UTF-8, replacement characters stand in the text; how many is left to
/// the name `utf8_lossy`.
#[verifier::external_body]
fn from_utf8_lossy(bytes: &Vec<u8>) -> (s: String)
    ensures
        s@ == utf8_lossy(bytes@),
        vstd::utf8::valid_utf8(bytes@) ==> s@ == vstd::utf8::decode_utf8(bytes@),
{
    String::from_utf8_lossy(bytes).into_owned()
}

/// The text that a command printed: what its bytes are in UTF-8.
pub open spec fn printed_text(bytes: Seq<u8>) -> Seq<char> {
    if vstd::utf8::valid_utf8(bytes) {
        vstd::utf8::decode_utf8(bytes)
    } else {
        utf8_lossy(bytes)
    }
}

/// Whether a character has the Unicode property `White_Space`.
pub open spec fn white_space(c: char) -> bool {
    let n = c as int;
    ||| 0x09 <= n <= 0x0d
    ||| n == 0x20
    ||| n == 0x85
    ||| n == 0xa0
    ||| n == 0x1680
    ||| 0x2000 <= n <= 0x200a
    ||| n == 0x2028
    ||| n == 0x2029
    ||| n == 0x202f
    ||| n == 0x205f
    ||| n == 0x3000
}

/// A text without the white space at its start.
pub open spec fn trim_start(s: Seq<char>) -> Seq<char>
    decreases s.len(),
{
    if s.len() > 0 && white_space(s[0]) {
        trim_start(s.drop_first())
    } else {
        s
    }
}

/// A text without the white space at its end.
pub open spec fn trim_end(s: Seq<char>) -> Seq<char>
    decreases s.len(),
{
    if s.len() > 0 && white_space(s.last()) {
        trim_end(s.drop_last())
    } else {
        s
    }
}

/// A text without the white space around it.
pub open spec fn trim(s: Seq<char>) -> Seq<char> {
    trim_end(trim_start(s))
}

/// The place of the first line feed of a text; its length where it has none.
pub open spec fn line_feed(s: Seq<char>) -> int
    decreases s.len(),
{
    if s.len() == 0 || s[0] == '\n' {
        0
    } else {
        1 + line_feed(s.drop_first())
    }
}

/// A text without the carriage return at its end, if there is one.
pub open spec fn without_return(s: Seq<char>) -> Seq<char> {
    if s.len() > 0 && s.last() == '\r' {
        s.drop_last()
    } else {
        s
    }
}

/// The lines of a text. A line ends with a line feed, or with a carriage return
/// and a line feed, or with the text; there is no line behind the last line
/// feed where the text ends with it.
pub open spec fn lines(s: Seq<char>) -> Seq<Seq<char>>
    decreases s.len(),
    via lines_decreases
{
    if s.len() == 0 {
        Seq::empty()
    } else if line_feed(s) < s.len() {
        seq![without_return(s.take(line_feed(s)))] + lines(s.skip(line_feed(s) + 1))
    } else {
        seq![s]
    }
}

#[via_fn]
proof fn lines_decreases(s: Seq<char>) {
    lemma_line_feed(s);
}

/// The digits of a number behind its sign, if it has one.
pub open spec fn unsigned(s: Seq<char>) -> Seq<char> {
    if s.len() > 0 && (s[0] == '-' || s[0] == '+') {
        s.drop_first()
    } else {
        s
    }
}

/// The number that a text stands for: one or more decimal digits, with at most
/// one sign before them. A text that is anything else stands for no number, and
/// neither does a number that an `i32` cannot hold.
pub open spec fn parse_i32(s: Seq<char>) -> Option<int> {
    let magnitude = text::digits_value(unsigned(s));
    let n = if s.len() > 0 && s[0] == '-' {
        -magnitude
    } else {
        magnitude
    };
    if unsigned(s).len() > 0 && text::all_digits(unsigned(s)) && i32::MIN <= n <= i32::MAX {
        Some(n)
    } else {
        None
    }
}

/// The number on a line, with white space around it or not.
pub open spec fn line_pid(line: Seq<char>) -> Option<int> {
    parse_i32(trim(line))
}

/// The number on the first line that is a number.
pub open spec fn first_line_pid(ls: Seq<Seq<char>>) -> Option<int>
    decreases ls.len(),
{
    if ls.len() == 0 {
        None
    } else if line_pid(ls[0]) is Some {
        line_pid(ls[0])
    } else {
        first_line_pid(ls.drop_first())
    }
}

/// The process id in what a command printed; none if the command did not run or
/// failed.
pub open spec fn detected_pid(out: Option<CommandOutput>) -> Option<int> {
    match out {
        Some(o) => if o.success {
            first_line_pid(lines(printed_text(o.stdout@)))
        } else {
            None
        },
        None => None,
    }
}

/// Where the first line feed is.
proof fn lemma_line_feed(s: Seq<char>)
    ensures
        0 <= line_feed(s) <= s.len(),
        forall|i: int| 0 <= i < line_feed(s) ==> s[i] != '\n',
        line_feed(s) < s.len() ==> s[line_feed(s)] == '\n',
    decreases s.len(),
{
    if s.len() > 0 && s[0] != '\n' {
        lemma_line_feed(s.drop_first());
        assert forall|i: int| 0 <= i < line_feed(s) implies s[i] != '\n' by {
            if i > 0 {
                assert(s[i] == s.drop_first()[i - 1]);
            }
        }
    }
}

/// A place with no line feed before it, and one at it or the end of the text, is
/// the place of the first line feed.
proof fn lemma_line_feed_is(s: Seq<char>, at: int)
    requires
        0 <= at <= s.len(),
        forall|i: int| 0 <= i < at ==> s[i] != '\n',
        at < s.len() ==> s[at] == '\n',
    ensures
        line_feed(s) == at,
{
    lemma_line_feed(s);
    if line_feed(s) < at {
        assert(s[line_feed(s)] != '\n');
    }
}

/// More digits never stand for a smaller number.
proof fn lemma_digits_grow(s: Seq<char>, k: int)
    requires
        text::all_digits(s),
        0 <= k <= s.len(),
    ensures
        0 <= text::digits_value(s.take(k)) <= text::digits_value(s),
    decreases s.len(),
{
    if s.len() > 0 {
        assert forall|i: int| 0 <= i < s.drop_last().len() implies text::is_digit(
            #[trigger] s.drop_last()[i],
        ) by {
            assert(s.drop_last()[i] == s[i]);
        }
        assert(text::is_digit(s[s.len() - 1]));
        if k < s.len() {
            lemma_digits_grow(s.drop_last(), k);
            assert(s.drop_last().take(k) =~= s.take(k));
        } else {
            lemma_digits_grow(s.drop_last(), s.len() - 1);
            assert(s.take(k) =~= s);
            assert(s.drop_last().take(s.len() - 1) =~= s.drop_last());
        }
    } else {
        assert(s.take(k) =~= s);
    }
}

/// The characters of a text.
fn chars_of(s: &str) -> (chars: Vec<char>)
    ensures
        chars@ == s@,
{
    let mut chars: Vec<char> = Vec::new();
    for c in it: s.chars()
        invariant
            chars@ == s@.take(it.index() as int),
            it.seq() == s@,
    {
        chars.push(c);
    }
    chars
}

/// Whether a character has the Unicode property `White_Space`.
pub fn is_white_space(c: char) -> (r: bool)
    ensures
        r == white_space(c),
{
    let n: u32 = c as u32;
    (0x09 <= n && n <= 0x0d) || n == 0x20 || n == 0x85 || n == 0xa0 || n == 0x1680 || (0x2000 <= n
        && n <= 0x200a) || n == 0x2028 || n == 0x2029 || n == 0x202f || n == 0x205f || n == 0x3000
}

/// The part of `chars` from `from` to `to` without the white space around it.
fn trim_range(chars: &Vec<char>, from: usize, to: usize) -> (range: (usize, usize))
    requires
        from <= to <= chars@.len(),
    ensures
        from <= range.0 <= range.1 <= to,
        chars@.subrange(range.0 as int, range.1 as int) == trim(
            chars@.subrange(from as int, to as int),
        ),
{
    let ghost whole = chars@.subrange(from as int, to as int);
    let mut a = from;
    while a < to && is_white_space(chars[a])
        invariant
            from <= a <= to <= chars@.len(),
            trim_start(whole) == trim_start(chars@.subrange(a as int, to as int)),
        decreases to - a,
    {
        assert(chars@.subrange(a as int, to as int).drop_first() =~= chars@.subrange(
            a + 1,
            to as int,
        ));
        a += 1;
    }
    let ghost rest = chars@.subrange(a as int, to as int);
    assert(trim_start(whole) == rest);
    let mut b = to;
    while b > a && is_white_space(chars[b - 1])
        invariant
            from <= a <= b <= to <= chars@.len(),
            trim_end(rest) == trim_end(chars@.subrange(a as int, b as int)),
        decreases b - a,
    {
        assert(chars@.subrange(a as int, b as int).drop_last() =~= chars@.subrange(
            a as int,
            b - 1,
        ));
        b -= 1;
    }
    (a, b)
}

/// The value of a decimal digit.
fn digit_of(c: char) -> (r: Option<u32>)
    ensures
        r is Some == text::is_digit(c),
        r is Some ==> r->0 == c as int - '0' as int && r->0 < 10,
{
    let n: u32 = c as u32;
    if n < 48 || n > 57 {
        None
    } else {
        Some(n - 48)
    }
}

/// The number that the part of `chars` from `from` to `to` stands for.
fn parse_range(chars: &Vec<char>, from: usize, to: usize) -> (r: Option<i32>)
    requires
        from <= to <= chars@.len(),
    ensures
        r is Some == parse_i32(chars@.subrange(from as int, to as int)) is Some,
        r is Some ==> r->0 == parse_i32(chars@.subrange(from as int, to as int))->0,
{
    let ghost s = chars@.subrange(from as int, to as int);
    let negative = from < to && chars[from] == '-';
    let signed = negative || (from < to && chars[from] == '+');
    let start: usize = if signed {
        from + 1
    } else {
        from
    };
    let ghost d = chars@.subrange(start as int, to as int);
    assert(d =~= unsigned(s));
    if start == to {
        return None;
    }
    let mut value: i64 = 0;
    let mut i: usize = start;
    while i < to
        invariant
            start <= i <= to <= chars@.len(),
            d == chars@.subrange(start as int, to as int),
            s == chars@.subrange(from as int, to as int),
            d == unsigned(s),
            d.len() > 0,
            negative ==> s.len() > 0 && s[0] == '-',
            !negative ==> s.len() > 0 && s[0] != '-',
            text::all_digits(d.take(i - start)),
            value == text::digits_value(d.take(i - start)),
            0 <= value <= 2147483648,
        decreases to - i,
    {
        let ghost k = i - start;
        assert(d[k] == chars@[i as int]);
        let digit = match digit_of(chars[i]) {
            Some(digit) => digit,
            None => {
                return None;
            },
        };
        value = value * 10 + digit as i64;
        proof {
            assert(d.take(k + 1).drop_last() =~= d.take(k));
            assert forall|j: int| 0 <= j < d.take(k + 1).len() implies text::is_digit(
                #[trigger] d.take(k + 1)[j],
            ) by {
                if j < k {
                    assert(text::is_digit(d.take(k)[j]));
                } else {
                    assert(text::is_digit(d[k]));
                }
            }
        }
        if value > 2147483648 {
            proof {
                if text::all_digits(d) {
                    lemma_digits_grow(d, k + 1);
                }
            }
            return None;
        }
        i += 1;
    }
    assert(d.take(i - start) =~= d);
    if negative {
        Some((-value) as i32)
    } else if value > 2147483647 {
        None
    } else {
        Some(value as i32)
    }
}

/// The number on the first line of a text that is a number.
pub fn first_pid(listing: &str) -> (r: Option<i32>)
    ensures
        r is Some == first_line_pid(lines(listing@)) is Some,
        r is Some ==> r->0 == first_line_pid(lines(listing@))->0,
        r is None <==> forall|i: int|
            0 <= i < lines(listing@).len() ==> line_pid(#[trigger] lines(listing@)[i]) is None,
        r is Some ==> exists|i: int|
            0 <= i < lines(listing@).len() && line_pid(#[trigger] lines(listing@)[i]) == Some(
                r->0 as int,
            ) && (forall|j: int| 0 <= j < i ==> line_pid(#[trigger] lines(listing@)[j]) is None),
{
    let chars = chars_of(listing);
    let mut start: usize = 0;
    assert(chars@.skip(0) =~= listing@);
    while start < chars.len()
        invariant
            start <= chars@.len(),
            chars@ == listing@,
            first_line_pid(lines(listing@)) == first_line_pid(lines(chars@.skip(start as int))),
        decreases chars@.len() - start,
    {
        let ghost rest = chars@.skip(start as int);
        let mut end: usize = start;
        while end < chars.len() && chars[end] != '\n'
            invariant
                start <= end <= chars@.len(),
                forall|j: int| start <= j < end ==> chars@[j] != '\n',
            decreases chars@.len() - end,
        {
            end += 1;
        }
        let ended = end < chars.len();
        let stop: usize = if ended && end > start && chars[end - 1] == '\r' {
            end - 1
        } else {
            end
        };
        let ghost line = chars@.subrange(start as int, stop as int);
        proof {
            assert forall|j: int| 0 <= j < end - start implies rest[j] != '\n' by {
                assert(rest[j] == chars@[start + j]);
            }
            lemma_line_feed_is(rest, end - start);
            if ended {
                assert(rest.take(end - start) =~= chars@.subrange(start as int, end as int));
                assert(line =~= without_return(rest.take(end - start)));
                assert(rest.skip(end - start + 1) =~= chars@.skip(end + 1));
                assert(lines(rest) =~= seq![line] + lines(chars@.skip(end + 1)));
            } else {
                assert(line =~= rest);
                assert(lines(rest) =~= seq![line] + Seq::<Seq<char>>::empty());
                assert(chars@.skip(chars@.len() as int) =~= Seq::empty());
            }
            assert(lines(rest)[0] == line);
            assert(lines(rest).drop_first() =~= if ended {
                lines(chars@.skip(end + 1))
            } else {
                Seq::empty()
            });
        }
        let (a, b) = trim_range(&chars, start, stop);
        let number = parse_range(&chars, a, b);
        if number.is_some() {
            proof {
                law_first_number_is_taken(lines(listing@));
            }
            return number;
        }
        start = if ended {
            end + 1
        } else {
            end
        };
    }
    assert(chars@.skip(start as int) =~= Seq::empty());
    proof {
        law_first_number_is_taken(lines(listing@));
    }
    None
}

/// The process id of the browser, out of the output of a command that lists the
/// processes which match it, one number to a line: the number on the first line
/// that is one. There is none where the command could not be run (`None`), as
/// on a platform without it, or where it failed.
pub fn detect_chrome_pid(out: Option<CommandOutput>) -> (r: Option<i32>)
    ensures
        r is Some == detected_pid(out) is Some,
        r is Some ==> r->0 == detected_pid(out)->0,
        out is None || !out->0.success ==> r is None,
        out is Some && out->0.success && vstd::utf8::valid_utf8(out->0.stdout@) ==> utf8_lossy(
            out->0.stdout@,
        ) == vstd::utf8::decode_utf8(out->0.stdout@),
{
    match out {
        Some(o) => if o.success {
            first_pid(from_utf8_lossy(&o.stdout).as_str())
        } else {
            None
        },
        None => None,
    }
}

/// The line that is taken is the first one that is a number: nothing is taken
/// where no line is one, and what is taken is the number on a line before which
/// no line is one.
pub proof fn law_first_number_is_taken(ls: Seq<Seq<char>>)
    ensures
        first_line_pid(ls) is None <==> forall|i: int|
            0 <= i < ls.len() ==> line_pid(#[trigger] ls[i]) is None,
        first_line_pid(ls) is Some ==> exists|i: int|
            0 <= i < ls.len() && line_pid(#[trigger] ls[i]) == first_line_pid(ls) && (forall|j: int|
                0 <= j < i ==> line_pid(#[trigger] ls[j]) is None),
    decreases ls.len(),
{
    if ls.len() > 0 {
        let rest = ls.drop_first();
        if line_pid(ls[0]) is Some {
            assert(line_pid(ls[0]) == first_line_pid(ls));
        } else {
            law_first_number_is_taken(rest);
            if first_line_pid(rest) is Some {
                let i = choose|i: int|
                    0 <= i < rest.len() && line_pid(#[trigger] rest[i]) == first_line_pid(rest) && (
                    forall|j: int| 0 <= j < i ==> line_pid(#[trigger] rest[j]) is None);
                assert(line_pid(ls[i + 1]) == first_line_pid(ls));
                assert forall|j: int| 0 <= j < i + 1 implies line_pid(#[trigger] ls[j]) is None by {
                    if j > 0 {
                        assert(rest[j - 1] == ls[j]);
                    }
                }
            } else {
                assert forall|i: int| 0 <= i < ls.len() implies line_pid(#[trigger] ls[i]) is None by {
                    if i > 0 {
                        assert(rest[i - 1] == ls[i]);
                    }
                }
            }
        }
    }
}

/// A number in decimal is read back as the number, if an `i32` can hold it.
pub proof fn law_decimal_is_read_back(n: int)
    ensures
        line_pid(text::decimal(n)) == if i32::MIN <= n <= i32::MAX {
            Some(n)
        } else {
            None
        },
{
    let s = text::decimal(n);
    let magnitude = (if n < 0 { -n } else { n }) as nat;
    text::lemma_decimal_chars(n);
    text::lemma_digits(magnitude);
    assert(s[0] == '-' || text::is_digit(s[0]));
    assert(trim(s) == s);
    assert(text::is_digit(text::digits(magnitude)[0]));
    assert(unsigned(s) =~= text::digits(magnitude));
}

/// A listing that starts with the line of one process gives the id of this
/// process, whatever follows.
pub proof fn law_first_listed_process_is_taken(n: i32, rest: Seq<char>)
    ensures
        first_line_pid(lines(text::decimal(n as int) + seq!['\n'] + rest)) == Some(n as int),
{
    let line = text::decimal(n as int);
    let s = line + seq!['\n'] + rest;
    text::lemma_decimal_chars(n as int);
    law_decimal_is_read_back(n as int);
    assert forall|i: int| 0 <= i < line.len() implies s[i] != '\n' by {
        assert(s[i] == line[i]);
        assert(line[i] == '-' || text::is_digit(line[i]));
    }
    lemma_line_feed_is(s, line.len() as int);
    assert(s.take(line.len() as int) =~= line);
    assert(without_return(line) == line);
    assert(lines(s)[0] == line);
}

/// The same of the bytes that a command prints: where it succeeds, and prints in
/// UTF-8 the line of one process before anything else, the id of this process is
/// detected.
pub proof fn law_first_printed_process_is_detected(n: i32, rest: Seq<char>, out: CommandOutput)
    requires
        out.success,
        out.stdout@ == vstd::utf8::encode_utf8(text::decimal(n as int) + seq!['\n'] + rest),
    ensures
        detected_pid(Some(out)) == Some(n as int),
{
    let printed = text::decimal(n as int) + seq!['\n'] + rest;
    vstd::utf8::encode_utf8_valid_utf8(printed);
    vstd::utf8::encode_utf8_decode_utf8(printed);
    law_first_listed_process_is_taken(n, rest);
}

/// Whether a text is made of white space.
pub open spec fn is_blank(s: Seq<char>) -> bool {
    forall|i: int| 0 <= i < s.len() ==> white_space(#[trigger] s[i])
}

/// Whether a text is one or more of the digits from `0` to `9`.
pub open spec fn is_numeral(s: Seq<char>) -> bool {
    &&& s.len() > 0
    &&& forall|i: int| 0 <= i < s.len() ==> 48 <= #[trigger] s[i] as int <= 57
}

/// Whether a text spells a number: digits that stand for it, with a plus sign
/// before them or none, or a minus sign and digits that stand for its opposite.
pub open spec fn spells(s: Seq<char>, n: int) -> bool {
    ||| is_numeral(s) && n == text::digits_value(s)
    ||| s.len() > 0 && s[0] == '+' && is_numeral(s.drop_first()) && n == text::digits_value(
        s.drop_first(),
    )
    ||| s.len() > 0 && s[0] == '-' && is_numeral(s.drop_first()) && n == -text::digits_value(
        s.drop_first(),
    )
}

/// A text is read as a number exactly where it spells one that an `i32` can hold,
/// and as this number.
pub proof fn law_number_is_read_as_it_is_spelled(s: Seq<char>, n: int)
    ensures
        parse_i32(s) == Some(n) <==> spells(s, n) && -2147483648 <= n <= 2147483647,
{
    assert(text::all_digits(unsigned(s)) <==> forall|i: int|
        0 <= i < unsigned(s).len() ==> 48 <= #[trigger] unsigned(s)[i] as int <= 57) by {
        if text::all_digits(unsigned(s)) {
            assert forall|i: int| 0 <= i < unsigned(s).len() implies 48 <= #[trigger] unsigned(
                s,
            )[i] as int <= 57 by {
                assert(text::is_digit(unsigned(s)[i]));
            }
        }
    }
    assert(unsigned(s).len() > 0 && text::all_digits(unsigned(s)) <==> is_numeral(unsigned(s)));
    if s.len() > 0 && (s[0] == '-' || s[0] == '+') {
        assert(!is_numeral(s));
    }
}

/// The white space of Unicode.
pub proof fn law_white_space_is_that_of_unicode(c: char)
    ensures
        white_space(c) <==> {
            ||| c == '\t'
            ||| c == '\n'
            ||| c == '\u{b}'
            ||| c == '\u{c}'
            ||| c == '\r'
            ||| c == ' '
            ||| c == '\u{85}'
            ||| c == '\u{a0}'
            ||| c == '\u{1680}'
            ||| '\u{2000}' <= c && c <= '\u{200a}'
            ||| c == '\u{2028}'
            ||| c == '\u{2029}'
            ||| c == '\u{202f}'
            ||| c == '\u{205f}'
            ||| c == '\u{3000}'
        },
{
}

/// White space around a text is trimmed, all of it and nothing else: what is left
/// of a text with white space before and behind it is the text, if it does not
/// start or end with white space itself.
pub proof fn law_white_space_around_is_trimmed(a: Seq<char>, s: Seq<char>, b: Seq<char>)
    requires
        is_blank(a),
        is_blank(b),
        s.len() > 0 ==> !white_space(s[0]) && !white_space(s.last()),
    ensures
        trim(a + s + b) == s,
{
    lemma_trim_start(a, s + b);
    assert(a + s + b =~= a + (s + b));
    if s.len() > 0 {
        assert((s + b)[0] == s[0]);
        lemma_trim_end(s, b);
    } else {
        assert(s + b =~= b);
        assert(trim_start(b) =~= Seq::empty()) by {
            lemma_trim_start(b, Seq::empty());
            assert(b + Seq::<char>::empty() =~= b);
        }
        assert(s =~= Seq::empty());
    }
}

/// White space at the start is trimmed.
proof fn lemma_trim_start(a: Seq<char>, s: Seq<char>)
    requires
        is_blank(a),
    ensures
        trim_start(a + s) == trim_start(s),
    decreases a.len(),
{
    if a.len() > 0 {
        assert(white_space(a[0]));
        assert((a + s).drop_first() =~= a.drop_first() + s);
        assert forall|i: int| 0 <= i < a.drop_first().len() implies white_space(
            #[trigger] a.drop_first()[i],
        ) by {
            assert(white_space(a[i + 1]));
        }
        lemma_trim_start(a.drop_first(), s);
    } else {
        assert(a + s =~= s);
    }
}

/// White space at the end is trimmed.
proof fn lemma_trim_end(s: Seq<char>, b: Seq<char>)
    requires
        is_blank(b),
    ensures
        trim_end(s + b) == trim_end(s),
    decreases b.len(),
{
    if b.len() > 0 {
        assert(white_space(b[b.len() - 1]));
        assert((s + b).drop_last() =~= s + b.drop_last());
        assert forall|i: int| 0 <= i < b.drop_last().len() implies white_space(
            #[trigger] b.drop_last()[i],
        ) by {
            assert(white_space(b[i]));
        }
        lemma_trim_end(s, b.drop_last());
    } else {
        assert(s + b =~= s);
    }
}

/// Every text is what is left of it when it is trimmed, with white space before
/// and behind it.
proof fn lemma_trimmed_part(s: Seq<char>) -> (range: (int, int))
    ensures
        0 <= range.0 <= range.1 <= s.len(),
        is_blank(s.take(range.0)),
        is_blank(s.skip(range.1)),
        trim(s) == s.subrange(range.0, range.1),
        trim(s).len() > 0 ==> !white_space(trim(s)[0]) && !white_space(trim(s).last()),
{
    let a = lemma_trimmed_start(s);
    let rest = s.skip(a);
    let b = lemma_trimmed_end(rest);
    assert(rest.take(b) =~= s.subrange(a, a + b));
    assert(rest.skip(b) =~= s.skip(a + b));
    if b > 0 {
        assert(trim(s)[0] == rest[0]);
    }
    (a, a + b)
}

/// How much is trimmed at the start.
proof fn lemma_trimmed_start(s: Seq<char>) -> (a: int)
    ensures
        0 <= a <= s.len(),
        is_blank(s.take(a)),
        trim_start(s) == s.skip(a),
        a < s.len() ==> !white_space(s[a]),
    decreases s.len(),
{
    if s.len() > 0 && white_space(s[0]) {
        let rest = s.drop_first();
        let a = lemma_trimmed_start(rest);
        assert(rest.skip(a) =~= s.skip(a + 1));
        assert forall|i: int| 0 <= i < s.take(a + 1).len() implies white_space(
            #[trigger] s.take(a + 1)[i],
        ) by {
            if i > 0 {
                assert(white_space(rest.take(a)[i - 1]));
            }
        }
        a + 1
    } else {
        assert(s.skip(0) =~= s);
        0
    }
}

/// How much is left when the end is trimmed.
proof fn lemma_trimmed_end(s: Seq<char>) -> (b: int)
    ensures
        0 <= b <= s.len(),
        is_blank(s.skip(b)),
        trim_end(s) == s.take(b),
        b > 0 ==> !white_space(s[b - 1]),
    decreases s.len(),
{
    if s.len() > 0 && white_space(s.last()) {
        let front = s.drop_last();
        let b = lemma_trimmed_end(front);
        assert(front.take(b) =~= s.take(b));
        assert forall|i: int| 0 <= i < s.skip(b).len() implies white_space(#[trigger] s.skip(b)[i]) by {
            if i < front.skip(b).len() {
                assert(white_space(front.skip(b)[i]));
            }
        }
        b
    } else {
        assert(s.take(s.len() as int) =~= s);
        s.len() as int
    }
}

/// A line with a number on it, and white space before and behind the number or
/// not, is read as the number, if an `i32` can hold it.
pub proof fn law_line_with_a_number(a: Seq<char>, s: Seq<char>, b: Seq<char>, n: int)
    requires
        is_blank(a),
        is_blank(b),
        spells(s, n),
    ensures
        line_pid(a + s + b) == if -2147483648 <= n <= 2147483647 {
            Some(n)
        } else {
            None
        },
{
    assert(s.len() > 0);
    assert(!white_space(s[0]) && !white_space(s.last())) by {
        if is_numeral(s) {
            assert(48 <= s[0] as int <= 57);
            assert(48 <= s[s.len() - 1] as int <= 57);
        } else {
            let d = s.drop_first();
            assert(48 <= d[d.len() - 1] as int <= 57);
            assert(d[d.len() - 1] == s.last());
        }
    }
    law_white_space_around_is_trimmed(a, s, b);
    law_number_is_read_as_it_is_spelled(s, n);
    if parse_i32(s) is Some {
        law_number_is_read_as_it_is_spelled(s, parse_i32(s)->0);
    }
}

/// A line that is read as a number is one with this number on it, and nothing else
/// but white space around it.
pub proof fn law_line_read_as_a_number_has_it(line: Seq<char>, n: int) -> (range: (int, int))
    requires
        line_pid(line) == Some(n),
    ensures
        0 <= range.0 <= range.1 <= line.len(),
        is_blank(line.take(range.0)),
        spells(line.subrange(range.0, range.1), n),
        is_blank(line.skip(range.1)),
        -2147483648 <= n <= 2147483647,
{
    let range = lemma_trimmed_part(line);
    law_number_is_read_as_it_is_spelled(trim(line), n);
    range
}

/// The lines of a text: one that is ended by a line feed comes before the lines
/// behind it, without the carriage return at its end if there is one; what is not
/// ended by a line feed is a line as it is, unless it is empty.
pub proof fn law_line_feed_ends_a_line(line: Seq<char>, rest: Seq<char>)
    requires
        !line.contains('\n'),
    ensures
        line.len() == 0 || line.last() != '\r' ==> lines(line + seq!['\n'] + rest) == seq![line]
            + lines(rest),
        line.len() > 0 && line.last() == '\r' ==> lines(line + seq!['\n'] + rest)
            == seq![line.drop_last()] + lines(rest),
        line.len() > 0 ==> lines(line) == seq![line],
        lines(Seq::<char>::empty()) == Seq::<Seq<char>>::empty(),
{
    let s = line + seq!['\n'] + rest;
    assert forall|i: int| 0 <= i < line.len() implies line[i] != '\n' by {
        assert(line.contains(line[i]));
    }
    assert forall|i: int| 0 <= i < line.len() implies s[i] != '\n' by {
        assert(s[i] == line[i]);
    }
    lemma_line_feed_is(s, line.len() as int);
    assert(s.take(line.len() as int) =~= line);
    assert(s.skip(line.len() as int + 1) =~= rest);
    if line.len() > 0 {
        lemma_line_feed_is(line, line.len() as int);
    }
}

/// A line without a number has no part in what is detected: what is detected in a
/// listing is what is detected in the rest of it.
pub proof fn law_line_without_a_number_is_passed_over(
    line: Seq<char>,
    rest: Seq<char>,
    out: CommandOutput,
    shorter: CommandOutput,
)
    requires
        !line.contains('\n'),
        line_pid(line) is None,
        out.success,
        shorter.success,
        out.stdout@ == vstd::utf8::encode_utf8(line + seq!['\n'] + rest),
        shorter.stdout@ == vstd::utf8::encode_utf8(rest),
    ensures
        detected_pid(Some(out)) == detected_pid(Some(shorter)),
{
    let printed = line + seq!['\n'] + rest;
    vstd::utf8::encode_utf8_valid_utf8(printed);
    vstd::utf8::encode_utf8_decode_utf8(printed);
    vstd::utf8::encode_utf8_valid_utf8(rest);
    vstd::utf8::encode_utf8_decode_utf8(rest);
    law_line_feed_ends_a_line(line, rest);
    lemma_return_is_trimmed(line);
    assert(lines(printed).drop_first() =~= lines(rest));
}

/// The carriage return at the end of a line has no part in the number on it.
proof fn lemma_return_is_trimmed(line: Seq<char>)
    ensures
        line_pid(without_return(line)) == line_pid(line),
{
    if line.len() > 0 && line.last() == '\r' {
        let range = lemma_trimmed_part(line.drop_last());
        let front = line.drop_last();
        let a = front.take(range.0);
        let s = front.subrange(range.0, range.1);
        let b = front.skip(range.1);
        assert forall|i: int| 0 <= i < b.push('\r').len() implies white_space(
            #[trigger] b.push('\r')[i],
        ) by {
            if i < b.len() {
                assert(white_space(b[i]));
            }
        }
        law_white_space_around_is_trimmed(a, s, b.push('\r'));
        assert(a + s + b.push('\r') =~= line);
    }
}

/// A line with a number is taken, whatever follows; also where no line feed ends
/// it.
pub proof fn law_line_with_a_number_is_taken(
    line: Seq<char>,
    rest: Seq<char>,
    n: int,
    out: CommandOutput,
)
    requires
        !line.contains('\n'),
        line_pid(line) == Some(n),
        out.success,
        out.stdout@ == vstd::utf8::encode_utf8(line + seq!['\n'] + rest) || out.stdout@
            == vstd::utf8::encode_utf8(line),
    ensures
        detected_pid(Some(out)) == Some(n),
{
    let printed = line + seq!['\n'] + rest;
    vstd::utf8::encode_utf8_valid_utf8(printed);
    vstd::utf8::encode_utf8_decode_utf8(printed);
    vstd::utf8::encode_utf8_valid_utf8(line);
    vstd::utf8::encode_utf8_decode_utf8(line);
    law_line_feed_ends_a_line(line, rest);
    lemma_return_is_trimmed(line);
    if line.len() == 0 {
        law_number_is_read_as_it_is_spelled(line, n);
    }
    if out.stdout@ == vstd::utf8::encode_utf8(line) {
        assert(lines(line)[0] == line);
    } else {
        assert(lines(printed)[0] == without_return(line));
    }
}

/// Nothing is detected where the command could not be run or failed, whatever it
/// printed, nor where it printed nothing.
pub proof fn law_failed_listing_detects_nothing(out: CommandOutput)
    ensures
        detected_pid(None) is None,
        !out.success ==> detected_pid(Some(out)) is None,
        out.stdout@.len() == 0 ==> detected_pid(Some(out)) is None,
{
    if out.stdout@.len() == 0 {
        vstd::utf8::encode_utf8_valid_utf8(Seq::empty());
        vstd::utf8::encode_utf8_decode_utf8(Seq::empty());
        assert(out.stdout@ =~= vstd::utf8::encode_utf8(Seq::empty()));
    }
}

/// Bytes that are not UTF-8 are read as the text with replacement characters: what
/// is detected in them is what is detected in the bytes of this text.
pub proof fn law_broken_bytes_are_read_as_replaced(out: CommandOutput, replaced: CommandOutput)
    requires
        out.success,
        replaced.success,
        !vstd::utf8::valid_utf8(out.stdout@),
        replaced.stdout@ == vstd::utf8::encode_utf8(utf8_lossy(out.stdout@)),
    ensures
        detected_pid(Some(out)) == detected_pid(Some(replaced)),
{
    vstd::utf8::encode_utf8_valid_utf8(utf8_lossy(out.stdout@));
    vstd::utf8::encode_utf8_decode_utf8(utf8_lossy(out.stdout@));
}

} // verus!
