//! Character-level text operations with exact specifications.
//!
//! Every function here is stated over `Seq<char>`, the view of `str` and
//! `String`. The executable versions walk a `Vec<char>` copy of the text.

use vstd::prelude::*;

verus! {

/// The view of each string of a sequence.
pub open spec fn views(s: Seq<String>) -> Seq<Seq<char>> {
    s.map_values(|x: String| x@)
}

/// `String::push`: appends one character to the end of the string.
#[verifier::external_body]
pub(crate) fn push_char(s: &mut String, c: char)
    ensures
        final(s)@ == old(s)@.push(c),
{
    s.push(c)
}

/// The characters of `s`, one element each.
pub fn to_chars(s: &str) -> (r: Vec<char>)
    ensures
        r@ == s@,
{
    let mut out: Vec<char> = Vec::new();
    for c in it: s.chars()
        invariant
            it.seq() == s@,
            out@ == s@.take(it.index() as int),
    {
        out.push(c);
        assert(s@.take(it.index() + 1) == s@.take(it.index() as int).push(c));
    }
    assert(s@.take(s@.len() as int) == s@);
    out
}

/// Appends `chars[from..to]` to `out`.
pub fn append_chars(out: &mut String, chars: &Vec<char>, from: usize, to: usize)
    requires
        from <= to <= chars.len(),
    ensures
        final(out)@ == old(out)@ + chars@.subrange(from as int, to as int),
{
    let mut i: usize = from;
    while i < to
        invariant
            from <= i <= to <= chars.len(),
            out@ == old(out)@ + chars@.subrange(from as int, i as int),
        decreases to - i,
    {
        push_char(out, chars[i]);
        assert(chars@.subrange(from as int, i + 1) == chars@.subrange(from as int, i as int).push(
            chars@[i as int],
        ));
        i = i + 1;
    }
}

/// The string made of `chars[from..to]`.
pub fn from_chars(chars: &Vec<char>, from: usize, to: usize) -> (r: String)
    requires
        from <= to <= chars.len(),
    ensures
        r@ == chars@.subrange(from as int, to as int),
{
    let mut out = String::new();
    append_chars(&mut out, chars, from, to);
    out
}

/// Whether `c` is an ASCII letter or an ASCII digit.
pub open spec fn is_alnum(c: char) -> bool {
    ('0' <= c && c <= '9') || ('a' <= c && c <= 'z') || ('A' <= c && c <= 'Z')
}

/// The character that stands in a path segment for one that is not kept.
pub const PLACEHOLDER: char = '-';

/// `s` with every character outside `[0-9A-Za-z]` replaced by the placeholder.
pub open spec fn sanitized(s: Seq<char>) -> Seq<char> {
    Seq::new(s.len(), |i: int| if is_alnum(s[i]) { s[i] } else { PLACEHOLDER })
}

/// Makes a name usable as a path segment: ASCII letters and digits stay,
/// every other character becomes `-`. The length in characters is kept.
pub fn sanitize(name: &str) -> (r: String)
    ensures
        r@ == sanitized(name@),
{
    let mut out = String::new();
    for c in it: name.chars()
        invariant
            it.seq() == name@,
            out@ == sanitized(name@.take(it.index() as int)),
    {
        let keep = ('0' <= c && c <= '9') || ('a' <= c && c <= 'z') || ('A' <= c && c <= 'Z');
        push_char(&mut out, if keep { c } else { PLACEHOLDER });
        assert(name@.take(it.index() + 1).drop_last() == name@.take(it.index() as int));
    }
    assert(name@.take(name@.len() as int) == name@);
    out
}

/// A sanitized name holds no separator and no dot, whatever the name was.
pub proof fn lemma_sanitized_chars(s: Seq<char>)
    ensures
        sanitized(s).len() == s.len(),
        forall|i: int| 0 <= i < s.len() ==> is_alnum(#[trigger] sanitized(s)[i]) || sanitized(s)[i] == PLACEHOLDER,
        !sanitized(s).contains('/'),
        !sanitized(s).contains('.'),
{
}

/// Sanitizing twice changes nothing more.
pub proof fn lemma_sanitized_idempotent(s: Seq<char>)
    ensures
        sanitized(sanitized(s)) == sanitized(s),
{
    assert(sanitized(sanitized(s)) =~= sanitized(s));
}

/// Whether `s` ends with `suffix`.
pub open spec fn ends_with(s: Seq<char>, suffix: Seq<char>) -> bool {
    suffix.len() <= s.len() && s.subrange(s.len() - suffix.len(), s.len() as int) == suffix
}

/// Whether `s` begins with `prefix`.
pub open spec fn starts_with(s: Seq<char>, prefix: Seq<char>) -> bool {
    prefix.len() <= s.len() && s.subrange(0, prefix.len() as int) == prefix
}

/// Whether `chars[from..to]` equals `pat`, decided by comparing position by position.
fn matches_at(chars: &Vec<char>, from: usize, to: usize, pat: &Vec<char>) -> (r: bool)
    requires
        from <= to <= chars.len(),
    ensures
        r == (chars@.subrange(from as int, to as int) == pat@),
{
    if to - from != pat.len() {
        return false;
    }
    let mut i: usize = 0;
    while i < pat.len()
        invariant
            from <= to <= chars.len(),
            to - from == pat.len(),
            i <= pat.len(),
            forall|j: int| 0 <= j < i ==> chars@[from + j] == pat@[j],
        decreases pat.len() - i,
    {
        if chars[from + i] != pat[i] {
            assert(chars@.subrange(from as int, to as int)[i as int] != pat@[i as int]);
            return false;
        }
        i = i + 1;
    }
    assert(chars@.subrange(from as int, to as int) =~= pat@);
    true
}

/// Whether the text `chars[from..to]` ends with `suffix`.
pub fn has_suffix(chars: &Vec<char>, from: usize, to: usize, suffix: &Vec<char>) -> (r: bool)
    requires
        from <= to <= chars.len(),
    ensures
        r == ends_with(chars@.subrange(from as int, to as int), suffix@),
{
    let ghost s = chars@.subrange(from as int, to as int);
    if suffix.len() > to - from {
        return false;
    }
    let r = matches_at(chars, to - suffix.len(), to, suffix);
    assert(s.subrange(s.len() - suffix.len(), s.len() as int) =~= chars@.subrange(
        to - suffix.len(),
        to as int,
    ));
    r
}

/// Whether the text `chars[from..to]` begins with `prefix`.
pub fn has_prefix(chars: &Vec<char>, from: usize, to: usize, prefix: &Vec<char>) -> (r: bool)
    requires
        from <= to <= chars.len(),
    ensures
        r == starts_with(chars@.subrange(from as int, to as int), prefix@),
{
    let ghost s = chars@.subrange(from as int, to as int);
    if prefix.len() > to - from {
        return false;
    }
    let r = matches_at(chars, from, from + prefix.len(), prefix);
    assert(s.subrange(0, prefix.len() as int) =~= chars@.subrange(
        from as int,
        from + prefix.len(),
    ));
    r
}

/// `s` after removing `pat` from its front for as long as it stands there.
/// An empty pattern removes nothing.
pub open spec fn trim_front(s: Seq<char>, pat: Seq<char>) -> Seq<char>
    decreases s.len(),
{
    if pat.len() > 0 && starts_with(s, pat) {
        trim_front(s.subrange(pat.len() as int, s.len() as int), pat)
    } else {
        s
    }
}

/// `s` after removing `pat` from its end for as long as it stands there.
/// An empty pattern removes nothing.
pub open spec fn trim_back(s: Seq<char>, pat: Seq<char>) -> Seq<char>
    decreases s.len(),
{
    if pat.len() > 0 && ends_with(s, pat) {
        trim_back(s.subrange(0, s.len() - pat.len()), pat)
    } else {
        s
    }
}

/// The start of what is left of `chars[from..to]` once every leading `pat` is removed.
pub fn trim_front_at(chars: &Vec<char>, from: usize, to: usize, pat: &Vec<char>) -> (r: usize)
    requires
        from <= to <= chars.len(),
    ensures
        from <= r <= to,
        chars@.subrange(r as int, to as int) == trim_front(
            chars@.subrange(from as int, to as int),
            pat@,
        ),
{
    let mut start: usize = from;
    if pat.len() == 0 {
        return start;
    }
    while has_prefix(chars, start, to, pat)
        invariant
            from <= start <= to <= chars.len(),
            pat.len() > 0,
            trim_front(chars@.subrange(start as int, to as int), pat@) == trim_front(
                chars@.subrange(from as int, to as int),
                pat@,
            ),
        decreases to - start,
    {
        assert(chars@.subrange(start as int, to as int).subrange(
            pat.len() as int,
            to - start,
        ) =~= chars@.subrange(start + pat.len(), to as int));
        start = start + pat.len();
    }
    start
}

/// The end of what is left of `chars[from..to]` once every trailing `pat` is removed.
pub fn trim_back_at(chars: &Vec<char>, from: usize, to: usize, pat: &Vec<char>) -> (r: usize)
    requires
        from <= to <= chars.len(),
    ensures
        from <= r <= to,
        chars@.subrange(from as int, r as int) == trim_back(
            chars@.subrange(from as int, to as int),
            pat@,
        ),
{
    let mut end: usize = to;
    if pat.len() == 0 {
        return end;
    }
    while has_suffix(chars, from, end, pat)
        invariant
            from <= end <= to <= chars.len(),
            pat.len() > 0,
            trim_back(chars@.subrange(from as int, end as int), pat@) == trim_back(
                chars@.subrange(from as int, to as int),
                pat@,
            ),
        decreases end - from,
    {
        assert(chars@.subrange(from as int, end as int).subrange(0, end - from - pat.len())
            =~= chars@.subrange(from as int, end - pat.len()));
        end = end - pat.len();
    }
    end
}

/// Whether `c` is one of `0` to `9`.
pub open spec fn is_digit(c: char) -> bool {
    '0' <= c && c <= '9'
}

/// Whether `s` holds decimal digits only.
pub open spec fn all_digits(s: Seq<char>) -> bool {
    forall|i: int| 0 <= i < s.len() ==> is_digit(#[trigger] s[i])
}

/// The number that the decimal digits `s` write, most significant first.
pub open spec fn decimal_value(s: Seq<char>) -> nat
    decreases s.len(),
{
    if s.len() == 0 {
        0
    } else {
        decimal_value(s.drop_last()) * 10 + ((s.last() as int - '0' as int) as nat)
    }
}

/// The digits of an unsigned number: the text without one leading `+`.
pub open spec fn unsigned_digits(s: Seq<char>) -> Seq<char> {
    if s.len() > 0 && s[0] == '+' {
        s.drop_first()
    } else {
        s
    }
}

/// What an unsigned decimal number parses to, with `max` the largest value
/// that fits: an optional `+`, then at least one digit, nothing else; leading
/// zeros are fine. Anything else, or a value above `max`, is `None`.
pub open spec fn parse_unsigned(s: Seq<char>, max: nat) -> Option<nat> {
    let d = unsigned_digits(s);
    if d.len() > 0 && all_digits(d) && decimal_value(d) <= max {
        Some(decimal_value(d))
    } else {
        None
    }
}

/// The value of digits never shrinks when more digits follow.
pub proof fn lemma_decimal_prefix(s: Seq<char>, k: int)
    requires
        0 <= k <= s.len(),
        all_digits(s),
    ensures
        decimal_value(s.take(k)) <= decimal_value(s),
    decreases s.len() - k,
{
    if k < s.len() {
        lemma_decimal_prefix(s, k + 1);
        assert(s.take(k + 1).drop_last() == s.take(k));
        assert(is_digit(s[k]));
        assert(s.take(k + 1).last() == s[k]);
    } else {
        assert(s.take(k) == s);
    }
}

/// Parses `chars[from..to]` as an unsigned decimal number no larger than `max`.
pub fn parse_number(chars: &Vec<char>, from: usize, to: usize, max: u64) -> (r: Option<u64>)
    requires
        from <= to <= chars.len(),
    ensures
        match r {
            Some(n) => parse_unsigned(chars@.subrange(from as int, to as int), max as nat) == Some(
                n as nat,
            ),
            None => parse_unsigned(chars@.subrange(from as int, to as int), max as nat) is None,
        },
{
    let ghost s = chars@.subrange(from as int, to as int);
    let mut i: usize = from;
    if from < to && chars[from] == '+' {
        i = from + 1;
    }
    let start: usize = i;
    let ghost d = chars@.subrange(start as int, to as int);
    assert(d == unsigned_digits(s)) by {
        assert(s.len() > 0 ==> s[0] == chars@[from as int]);
        assert(d =~= unsigned_digits(s));
    }
    if start == to {
        return None;
    }
    let mut acc: u64 = 0;
    while i < to
        invariant
            from <= start <= i <= to <= chars.len(),
            d == chars@.subrange(start as int, to as int),
            d == unsigned_digits(chars@.subrange(from as int, to as int)),
            all_digits(d.take(i - start)),
            acc as nat == decimal_value(d.take(i - start)),
            acc <= max,
        decreases to - i,
    {
        let c = chars[i];
        assert(d[i - start] == c);
        if !('0' <= c && c <= '9') {
            assert(!all_digits(d));
            return None;
        }
        let digit: u64 = (c as u32 - '0' as u32) as u64;
        let ghost next = d.take(i - start + 1);
        assert(next.drop_last() == d.take(i - start));
        assert(next.last() == c);
        assert(all_digits(next)) by {
            assert forall|j: int| 0 <= j < next.len() implies is_digit(#[trigger] next[j]) by {
                if j < i - start {
                    assert(next[j] == d.take(i - start)[j]);
                }
            }
        }
        assert(decimal_value(next) == acc * 10 + digit);
        if acc > max / 10 || (acc == max / 10 && digit > max % 10) {
            assert(decimal_value(next) > max) by (nonlinear_arith)
                requires
                    decimal_value(next) == acc * 10 + digit,
                    acc > max / 10 || (acc == max / 10 && digit > max % 10),
                    digit < 10,
            ;
            proof {
                if all_digits(d) {
                    lemma_decimal_prefix(d, i - start + 1);
                }
            }
            return None;
        }
        assert(acc * 10 + digit <= max) by (nonlinear_arith)
            requires
                !(acc > max / 10 || (acc == max / 10 && digit > max % 10)),
                digit < 10,
        ;
        acc = acc * 10 + digit;
        i = i + 1;
    }
    assert(d.take(to - start) == d);
    Some(acc)
}

/// The character of the decimal digit `d`.
pub open spec fn digit_char(d: nat) -> char {
    ('0' as int + d) as char
}

/// The decimal digits of `n`, most significant first, without leading zeros.
pub open spec fn decimal_text(n: nat) -> Seq<char>
    decreases n,
{
    if n < 10 {
        seq![digit_char(n)]
    } else {
        decimal_text(n / 10).push(digit_char(n % 10))
    }
}

/// Appends the decimal digits of `n` to `out`.
pub fn push_decimal(out: &mut String, n: u64)
    ensures
        final(out)@ == old(out)@ + decimal_text(n as nat),
    decreases n,
{
    if n >= 10 {
        push_decimal(out, n / 10);
    }
    let d: u8 = (n % 10) as u8;
    let c: char = (48u8 + d) as char;
    assert(c == digit_char((n % 10) as nat));
    push_char(out, c);
    assert(out@ =~= old(out)@ + decimal_text(n as nat));
}

/// The decimal digits of `n` as a string.
pub fn number_text(n: u64) -> (r: String)
    ensures
        r@ == decimal_text(n as nat),
{
    let mut out = String::new();
    push_decimal(&mut out, n);
    assert(Seq::<char>::empty() + decimal_text(n as nat) =~= decimal_text(n as nat));
    out
}

/// The digits of a number are digits, and they write that number.
pub proof fn lemma_decimal_text(n: nat)
    ensures
        decimal_text(n).len() > 0,
        all_digits(decimal_text(n)),
        decimal_value(decimal_text(n)) == n,
    decreases n,
{
    if n < 10 {
        let s = seq![digit_char(n)];
        assert(s.drop_last() =~= Seq::<char>::empty());
        assert(decimal_value(s.drop_last()) == 0);
        assert(s.last() == digit_char(n));
        assert(is_digit(s[0]));
    } else {
        lemma_decimal_text(n / 10);
        let s = decimal_text(n);
        let t = decimal_text(n / 10);
        assert(s == t.push(digit_char(n % 10)));
        assert(s.drop_last() =~= t);
        assert(s.last() == digit_char(n % 10));
        assert forall|i: int| 0 <= i < s.len() implies is_digit(#[trigger] s[i]) by {
            if i < t.len() {
                assert(s[i] == t[i]);
            }
        }
    }
}

/// Reading back the digits of a number gives the number.
pub proof fn lemma_parse_decimal_text(n: nat, max: nat)
    requires
        n <= max,
    ensures
        parse_unsigned(decimal_text(n), max) == Some(n),
{
    lemma_decimal_text(n);
    let s = decimal_text(n);
    assert(is_digit(s[0]));
    assert(unsigned_digits(s) == s);
}

/// The position of the last `.` in `name`, or -1 where it has none.
pub open spec fn last_dot(name: Seq<char>) -> int
    decreases name.len(),
{
    if name.len() == 0 {
        -1
    } else if name.last() == '.' {
        name.len() - 1
    } else {
        last_dot(name.drop_last())
    }
}

/// The stem of a file name: the name up to its last dot. A name without a
/// dot, one whose only dot comes first, and the name `..` are their own stem.
pub open spec fn file_stem(name: Seq<char>) -> Seq<char> {
    if last_dot(name) <= 0 || name == seq!['.', '.'] {
        name
    } else {
        name.take(last_dot(name))
    }
}

/// The length of the stem of the file name `name`.
pub fn stem_len(name: &Vec<char>) -> (r: usize)
    ensures
        r <= name.len(),
        name@.take(r as int) == file_stem(name@),
{
    let mut i: usize = name.len();
    assert(name@.take(i as int) == name@);
    while i > 0 && name[i - 1] != '.'
        invariant
            i <= name.len(),
            last_dot(name@) == last_dot(name@.take(i as int)),
        decreases i,
    {
        assert(name@.take(i as int).drop_last() == name@.take(i - 1));
        i = i - 1;
    }
    assert(name@.take(name.len() as int) == name@);
    if i <= 1 {
        // No dot, or the only dot comes first.
        assert(last_dot(name@) <= 0) by {
            if i == 1 {
                assert(name@.take(1).last() == '.');
            }
        }
        return name.len();
    }
    assert(name@.take(i as int).last() == '.');
    assert(last_dot(name@) == i - 1);
    if name.len() == 2 && name[0] == '.' {
        assert(name@ =~= seq!['.', '.']);
        return name.len();
    }
    assert(name@ != seq!['.', '.']) by {
        if name@ == seq!['.', '.'] {
            assert(name@.len() == 2);
            assert(name@[0] == '.');
        }
    }
    i - 1
}

/// `line` without one trailing carriage return.
pub open spec fn without_cr(line: Seq<char>) -> Seq<char> {
    if line.len() > 0 && line.last() == '\r' {
        line.drop_last()
    } else {
        line
    }
}

/// The position of the first line feed in `s`, or the length of `s` where it has none.
pub open spec fn first_newline(s: Seq<char>) -> int
    decreases s.len(),
{
    if s.len() == 0 {
        0
    } else if s[0] == '\n' {
        0
    } else {
        1 + first_newline(s.drop_first())
    }
}

/// The lines of a text. A line ends at a line feed, or at the end of the text;
/// the line feed and a carriage return right before it belong to no line. A
/// text that ends in a line feed has no empty last line, and a carriage return
/// that no line feed follows stays.
pub open spec fn lines(s: Seq<char>) -> Seq<Seq<char>>
    decreases s.len(),
{
    if s.len() == 0 {
        seq![]
    } else {
        let n = first_newline(s);
        if n < 0 || n >= s.len() {
            seq![s]
        } else {
            seq![without_cr(s.take(n))] + lines(s.skip(n + 1))
        }
    }
}

pub proof fn lemma_first_newline(s: Seq<char>)
    ensures
        0 <= first_newline(s) <= s.len(),
        first_newline(s) < s.len() ==> s[first_newline(s)] == '\n',
        forall|i: int| 0 <= i < first_newline(s) ==> s[i] != '\n',
    decreases s.len(),
{
    if s.len() > 0 && s[0] != '\n' {
        lemma_first_newline(s.drop_first());
        assert forall|i: int| 0 <= i < first_newline(s) implies s[i] != '\n' by {
            if i > 0 {
                assert(s[i] == s.drop_first()[i - 1]);
            }
        }
    }
}

/// A position that holds the first line feed at or after the start is `first_newline`.
proof fn lemma_first_newline_is(s: Seq<char>, n: int)
    requires
        0 <= n <= s.len(),
        forall|i: int| 0 <= i < n ==> s[i] != '\n',
        n < s.len() ==> s[n] == '\n',
    ensures
        first_newline(s) == n,
{
    lemma_first_newline(s);
    let m = first_newline(s);
    if m < n {
        assert(s[m] != '\n');
    }
    if n < m {
        assert(s[n] == '\n');
    }
}

/// Splits a text into its lines.
pub fn split_lines(text: &str) -> (r: Vec<String>)
    ensures
        views(r@) == lines(text@),
{
    let chars = to_chars(text);
    let mut out: Vec<String> = Vec::new();
    let mut start: usize = 0;
    assert(views(out@) =~= Seq::<Seq<char>>::empty());
    assert(chars@.skip(0) == chars@);
    while start < chars.len()
        invariant
            start <= chars.len(),
            chars@ == text@,
            views(out@) + lines(chars@.skip(start as int)) == lines(text@),
        decreases chars.len() - start,
    {
        let ghost rest = chars@.skip(start as int);
        let mut end: usize = start;
        while end < chars.len() && chars[end] != '\n'
            invariant
                start <= end <= chars.len(),
                forall|i: int| start <= i < end ==> chars@[i] != '\n',
            decreases chars.len() - end,
        {
            end = end + 1;
        }
        proof {
            assert forall|i: int| 0 <= i < end - start implies rest[i] != '\n' by {
                assert(rest[i] == chars@[start + i]);
            }
            lemma_first_newline_is(rest, end - start);
        }
        let ghost seen = views(out@);
        if end == chars.len() {
            let line = from_chars(&chars, start, end);
            assert(line@ =~= rest);
            out.push(line);
            assert(views(out@) =~= seen.push(rest));
            assert(lines(rest) =~= seq![rest]);
            assert(chars@.skip(end as int).len() == 0);
            assert(lines(chars@.skip(end as int)) =~= Seq::<Seq<char>>::empty());
            assert(views(out@) + lines(chars@.skip(end as int)) =~= seen + lines(rest));
            start = end;
        } else {
            let stop: usize = if end > start && chars[end - 1] == '\r' {
                end - 1
            } else {
                end
            };
            let line = from_chars(&chars, start, stop);
            assert(rest.take(end - start) =~= chars@.subrange(start as int, end as int));
            assert(line@ =~= without_cr(rest.take(end - start)));
            out.push(line);
            assert(views(out@) =~= seen.push(line@));
            assert(rest.skip(end - start + 1) =~= chars@.skip(end + 1));
            assert(lines(rest) =~= seq![line@] + lines(chars@.skip(end + 1)));
            assert(views(out@) + lines(chars@.skip(end + 1)) =~= seen + lines(rest));
            start = end + 1;
        }
    }
    assert(lines(chars@.skip(start as int)) =~= Seq::<Seq<char>>::empty());
    assert(views(out@) + Seq::<Seq<char>>::empty() =~= views(out@));
    out
}

/// The path `rel` below `base`: one separator stands between them unless
/// `base` is empty or ends in one already.
pub open spec fn joined(base: Seq<char>, rel: Seq<char>) -> Seq<char> {
    if base.len() == 0 || base.last() == '/' {
        base + rel
    } else {
        base + seq!['/'] + rel
    }
}

/// Joins the relative path `rel` onto `base`.
pub fn join(base: &str, rel: &str) -> (r: String)
    ensures
        r@ == joined(base@, rel@),
{
    let b = to_chars(base);
    let mut out = from_chars(&b, 0, b.len());
    assert(out@ =~= base@);
    if b.len() > 0 && b[b.len() - 1] != '/' {
        push_char(&mut out, '/');
        assert(out@ =~= base@ + seq!['/']);
    }
    let rest = to_chars(rel);
    append_chars(&mut out, &rest, 0, rest.len());
    assert(rest@.subrange(0, rest.len() as int) =~= rel@);
    out
}

/// `a + b` as text.
pub fn chain(a: &str, b: &str) -> (r: String)
    ensures
        r@ == a@ + b@,
{
    let x = to_chars(a);
    let mut out = from_chars(&x, 0, x.len());
    assert(out@ =~= a@);
    let y = to_chars(b);
    append_chars(&mut out, &y, 0, y.len());
    assert(y@.subrange(0, y.len() as int) =~= b@);
    out
}

/// Whether `a` comes strictly before `b` when texts are ordered character by
/// character, by code point, a proper prefix before what it is a prefix of.
/// This is the order in which `str` and `String` compare.
pub open spec fn text_lt(a: Seq<char>, b: Seq<char>) -> bool
    decreases a.len(),
{
    if b.len() == 0 {
        false
    } else if a.len() == 0 {
        true
    } else if a[0] != b[0] {
        a[0] < b[0]
    } else {
        text_lt(a.drop_first(), b.drop_first())
    }
}

/// Decides `text_lt` on two texts.
pub fn less_than(a: &Vec<char>, b: &Vec<char>) -> (r: bool)
    ensures
        r == text_lt(a@, b@),
{
    let mut i: usize = 0;
    assert(a@.skip(0) == a@ && b@.skip(0) == b@);
    while i < a.len() && i < b.len()
        invariant
            i <= a.len(),
            i <= b.len(),
            text_lt(a@, b@) == text_lt(a@.skip(i as int), b@.skip(i as int)),
        decreases a.len() - i,
    {
        let ghost x = a@.skip(i as int);
        let ghost y = b@.skip(i as int);
        assert(x[0] == a@[i as int] && y[0] == b@[i as int]);
        if a[i] != b[i] {
            return a[i] < b[i];
        }
        assert(x.drop_first() =~= a@.skip(i + 1));
        assert(y.drop_first() =~= b@.skip(i + 1));
        i = i + 1;
    }
    assert(a@.skip(i as int).len() == a.len() - i);
    assert(b@.skip(i as int).len() == b.len() - i);
    i < b.len()
}

/// No text comes before itself.
pub proof fn lemma_text_lt_irreflexive(a: Seq<char>)
    ensures
        !text_lt(a, a),
    decreases a.len(),
{
    if a.len() > 0 {
        lemma_text_lt_irreflexive(a.drop_first());
    }
}

/// The order is transitive.
pub proof fn lemma_text_lt_transitive(a: Seq<char>, b: Seq<char>, c: Seq<char>)
    requires
        text_lt(a, b),
        text_lt(b, c),
    ensures
        text_lt(a, c),
    decreases a.len(),
{
    if a.len() > 0 && b.len() > 0 && c.len() > 0 {
        if a[0] == b[0] && b[0] == c[0] {
            lemma_text_lt_transitive(a.drop_first(), b.drop_first(), c.drop_first());
        }
    }
}

/// Two different texts are ordered one way or the other.
pub proof fn lemma_text_lt_total(a: Seq<char>, b: Seq<char>)
    ensures
        text_lt(a, b) || text_lt(b, a) || a == b,
    decreases a.len(),
{
    if a.len() > 0 && b.len() > 0 {
        if a[0] == b[0] {
            lemma_text_lt_total(a.drop_first(), b.drop_first());
            if a.drop_first() == b.drop_first() {
                assert(a.len() == b.len()) by {
                    assert(a.drop_first().len() == a.len() - 1);
                    assert(b.drop_first().len() == b.len() - 1);
                }
                assert forall|i: int| 0 <= i < a.len() implies a[i] == b[i] by {
                    if i > 0 {
                        assert(a[i] == a.drop_first()[i - 1]);
                        assert(b[i] == b.drop_first()[i - 1]);
                    }
                }
                assert(a =~= b);
            }
        }
    } else if a.len() == 0 && b.len() == 0 {
        assert(a =~= b);
    }
}

} // verus!
