//! Text: characters, digits, words and whole-number parsing.
use vstd::prelude::*;

verus! {

// ---------------------------------------------------------------------------
// Whole strings
// ---------------------------------------------------------------------------

/// The characters of `s`, as a vector that can be indexed.
pub fn chars_of(s: &str) -> (r: Vec<char>)
    ensures
        r@ == s@,
{
    let mut out: Vec<char> = Vec::new();
    for c in it: s.chars()
        invariant
            out@ == s@.take(it.index() as int),
            it.seq() == s@,
    {
        proof {
            assert(s@.take(it.index() + 1) =~= s@.take(it.index() as int).push(c));
        }
        out.push(c);
    }
    proof {
        assert(s@.take(s@.len() as int) =~= s@);
    }
    out
}

/// Whether `a` and `b` hold the same characters.
pub fn same_text(a: &str, b: &str) -> (r: bool)
    ensures
        r == (a@ == b@),
{
    a.to_owned() == b.to_owned()
}

/// `a` followed by `b`.
pub fn concat2(a: &str, b: &str) -> (r: String)
    ensures
        r@ == a@ + b@,
{
    let mut out = a.to_owned();
    out.append(b);
    out
}

/// Appends `s` to `list`.
pub fn push_text(list: &mut Vec<String>, s: &str)
    ensures
        final(list).deep_view() == old(list).deep_view().push(s@),
{
    list.push(s.to_owned());
    proof {
        assert(list.deep_view() =~= old(list).deep_view().push(s@));
    }
}

/// Whether some entry of `list` holds the characters of `s`.
pub fn contains_text(list: &Vec<String>, s: &str) -> (r: bool)
    ensures
        r == list.deep_view().contains(s@),
{
    let mut i: usize = 0;
    while i < list.len()
        invariant
            i <= list.len(),
            forall|j: int| 0 <= j < i ==> list.deep_view()[j] != s@,
        decreases list.len() - i,
    {
        if same_text(list[i].as_str(), s) {
            assert(list.deep_view()[i as int] == s@);
            return true;
        }
        i += 1;
    }
    false
}

/// The parts of `list`, each but the first preceded by `sep`.
pub open spec fn joined(list: Seq<Seq<char>>, sep: Seq<char>) -> Seq<char>
    decreases list.len(),
{
    if list.len() == 0 {
        Seq::empty()
    } else if list.len() == 1 {
        list[0]
    } else {
        joined(list.drop_last(), sep) + sep + list.last()
    }
}

/// Concatenates the entries of `list`, separated by `sep`.
pub fn join(list: &Vec<String>, sep: &str) -> (r: String)
    ensures
        r@ == joined(list.deep_view(), sep@),
{
    let mut out = String::new();
    let mut i: usize = 0;
    let ghost parts = list.deep_view();
    while i < list.len()
        invariant
            i <= list.len(),
            parts == list.deep_view(),
            out@ == joined(parts.take(i as int), sep@),
        decreases list.len() - i,
    {
        proof {
            let next = parts.take(i + 1);
            assert(next.drop_last() =~= parts.take(i as int));
            assert(next.last() == list[i as int]@);
        }
        if i > 0 {
            out.append(sep);
        }
        out.append(list[i].as_str());
        i += 1;
    }
    proof {
        assert(parts.take(i as int) =~= parts);
    }
    out
}

// ---------------------------------------------------------------------------
// Character classes and scanning
// ---------------------------------------------------------------------------

/// The characters with Unicode's `White_Space` property.
pub open spec fn is_white(c: char) -> bool {
    ||| '\u{9}' <= c <= '\u{d}'
    ||| c == ' '
    ||| c == '\u{85}'
    ||| c == '\u{a0}'
    ||| c == '\u{1680}'
    ||| '\u{2000}' <= c <= '\u{200a}'
    ||| c == '\u{2028}'
    ||| c == '\u{2029}'
    ||| c == '\u{202f}'
    ||| c == '\u{205f}'
    ||| c == '\u{3000}'
}

/// The ASCII decimal digits.
pub open spec fn is_digit(c: char) -> bool {
    '0' <= c <= '9'
}

/// A kind of run that a scan can follow.
#[derive(Clone, Copy, PartialEq, Eq, Structural, Debug)]
pub enum Run {
    /// White space.
    White,
    /// Anything but white space.
    Word,
    /// ASCII digits.
    Digits,
    /// Anything but ASCII digits.
    NonDigits,
    /// Anything but a full stop.
    NonDots,
    /// Anything but a line feed.
    Line,
}

/// Whether `c` belongs to a run of kind `run`.
pub open spec fn in_run(run: Run, c: char) -> bool {
    match run {
        Run::White => is_white(c),
        Run::Word => !is_white(c),
        Run::Digits => is_digit(c),
        Run::NonDigits => !is_digit(c),
        Run::NonDots => c != '.',
        Run::Line => c != '\n',
    }
}

/// The end of the run of kind `run` that starts at `i`: the first index at or
/// after `i` whose character does not belong to it, or the end of `s`.
pub open spec fn run_end(run: Run, s: Seq<char>, i: int) -> int
    decreases s.len() - i,
{
    if 0 <= i < s.len() && in_run(run, s[i]) {
        run_end(run, s, i + 1)
    } else {
        i
    }
}

/// What the end of a run is: everything before it belongs to the run, and the
/// character at it, if there is one, does not.
pub proof fn lemma_run_end(run: Run, s: Seq<char>, i: int)
    requires
        0 <= i <= s.len(),
    ensures
        i <= run_end(run, s, i) <= s.len(),
        forall|k: int| i <= k < run_end(run, s, i) ==> in_run(run, #[trigger] s[k]),
        run_end(run, s, i) < s.len() ==> !in_run(run, s[run_end(run, s, i)]),
    decreases s.len() - i,
{
    if i < s.len() && in_run(run, s[i]) {
        lemma_run_end(run, s, i + 1);
    }
}

/// Whether `c` has Unicode's `White_Space` property.
pub fn white(c: char) -> (r: bool)
    ensures
        r == is_white(c),
{
    ('\u{9}' <= c && c <= '\u{d}') || c == ' ' || c == '\u{85}' || c == '\u{a0}' || c == '\u{1680}'
        || ('\u{2000}' <= c && c <= '\u{200a}') || c == '\u{2028}' || c == '\u{2029}' || c
        == '\u{202f}' || c == '\u{205f}' || c == '\u{3000}'
}

fn belongs(run: Run, c: char) -> (r: bool)
    ensures
        r == in_run(run, c),
{
    match run {
        Run::White => white(c),
        Run::Word => !white(c),
        Run::Digits => '0' <= c && c <= '9',
        Run::NonDigits => !('0' <= c && c <= '9'),
        Run::NonDots => c != '.',
        Run::Line => c != '\n',
    }
}

/// Follows the run of kind `run` from `start` and returns its end.
pub fn scan(run: Run, s: &Vec<char>, start: usize) -> (r: usize)
    requires
        start <= s@.len(),
    ensures
        r == run_end(run, s@, start as int),
        start <= r <= s@.len(),
{
    let mut i: usize = start;
    while i < s.len() && belongs(run, s[i])
        invariant
            start <= i <= s@.len(),
            run_end(run, s@, i as int) == run_end(run, s@, start as int),
        decreases s@.len() - i,
    {
        i += 1;
    }
    i
}

// ---------------------------------------------------------------------------
// Trimming and words
// ---------------------------------------------------------------------------

/// `s` without its trailing white space.
pub open spec fn trimmed_end(s: Seq<char>) -> Seq<char>
    decreases s.len(),
{
    if s.len() > 0 && is_white(s.last()) {
        trimmed_end(s.drop_last())
    } else {
        s
    }
}

/// `s` without its leading and trailing white space.
pub open spec fn trimmed(s: Seq<char>) -> Seq<char> {
    trimmed_end(s.skip(run_end(Run::White, s, 0)))
}

/// Removes leading and trailing white space.
pub fn trim(s: &str) -> (r: String)
    ensures
        r@ == trimmed(s@),
{
    let cs = chars_of(s);
    let start = scan(Run::White, &cs, 0);
    let mut end: usize = cs.len();
    let ghost tail = s@.skip(start as int);
    proof {
        assert(tail.take(end - start) =~= tail);
    }
    while end > start && white(cs[end - 1])
        invariant
            cs@ == s@,
            start <= end <= s@.len(),
            tail == s@.skip(start as int),
            trimmed_end(tail.take(end - start)) == trimmed_end(tail),
        decreases end,
    {
        proof {
            assert(tail.take(end - start).drop_last() =~= tail.take(end - 1 - start));
            assert(tail.take(end - start).last() == cs@[end - 1]);
        }
        end -= 1;
    }
    proof {
        if end > start {
            assert(tail.take(end - start).last() == cs@[end - 1]);
        }
        assert(tail.take(end - start) =~= s@.subrange(start as int, end as int));
    }
    s.substring_char(start, end).to_owned()
}

/// Where the word that follows position `i` starts.
pub open spec fn word_start(s: Seq<char>, i: int) -> int {
    run_end(Run::White, s, i)
}

/// Where the word that follows position `i` ends.
pub open spec fn word_end(s: Seq<char>, i: int) -> int {
    run_end(Run::Word, s, word_start(s, i))
}

/// The first white-space separated word of `s` at or after `i`, if there is one.
pub open spec fn word_from(s: Seq<char>, i: int) -> Option<Seq<char>> {
    if word_start(s, i) < s.len() {
        Some(s.subrange(word_start(s, i), word_end(s, i)))
    } else {
        None
    }
}

/// The first word of `s`.
pub open spec fn first_word(s: Seq<char>) -> Option<Seq<char>> {
    word_from(s, 0)
}

/// The second word of `s`.
pub open spec fn second_word(s: Seq<char>) -> Option<Seq<char>> {
    word_from(s, word_end(s, 0))
}

/// The first two white-space separated words of `s`.
pub fn first_two_words(s: &str) -> (r: (Option<String>, Option<String>))
    ensures
        r.0.deep_view() == first_word(s@),
        r.1.deep_view() == second_word(s@),
{
    let cs = chars_of(s);
    let a = scan(Run::White, &cs, 0);
    let b = scan(Run::Word, &cs, a);
    let c = scan(Run::White, &cs, b);
    let d = scan(Run::Word, &cs, c);
    let first = if a < cs.len() {
        Some(s.substring_char(a, b).to_owned())
    } else {
        None
    };
    let second = if c < cs.len() {
        Some(s.substring_char(c, d).to_owned())
    } else {
        None
    };
    (first, second)
}

// ---------------------------------------------------------------------------
// Numbers to text
// ---------------------------------------------------------------------------

/// The lower-case hexadecimal digit for `d`, which also serves as the decimal
/// digit when `d` is below ten.
pub open spec fn digit_char(d: int) -> char {
    if d < 10 {
        (48 + d) as char
    } else {
        (87 + d) as char
    }
}

/// The decimal digits of `n`, without leading zeros.
pub open spec fn decimal(n: nat) -> Seq<char>
    decreases n,
{
    if n < 10 {
        seq![digit_char(n as int)]
    } else {
        decimal(n / 10).push(digit_char((n % 10) as int))
    }
}

/// The last `width` lower-case hexadecimal digits of `n`, zero-padded.
pub open spec fn hex(n: nat, width: nat) -> Seq<char>
    decreases width,
{
    if width == 0 {
        Seq::empty()
    } else {
        hex(n / 16, (width - 1) as nat).push(digit_char((n % 16) as int))
    }
}

fn digit_text(d: u64) -> (r: &'static str)
    requires
        d < 16,
    ensures
        r@ == seq![digit_char(d as int)],
{
    proof {
        reveal_strlit("0");
        reveal_strlit("1");
        reveal_strlit("2");
        reveal_strlit("3");
        reveal_strlit("4");
        reveal_strlit("5");
        reveal_strlit("6");
        reveal_strlit("7");
        reveal_strlit("8");
        reveal_strlit("9");
        reveal_strlit("a");
        reveal_strlit("b");
        reveal_strlit("c");
        reveal_strlit("d");
        reveal_strlit("e");
        reveal_strlit("f");
    }
    if d == 0 {
        "0"
    } else if d == 1 {
        "1"
    } else if d == 2 {
        "2"
    } else if d == 3 {
        "3"
    } else if d == 4 {
        "4"
    } else if d == 5 {
        "5"
    } else if d == 6 {
        "6"
    } else if d == 7 {
        "7"
    } else if d == 8 {
        "8"
    } else if d == 9 {
        "9"
    } else if d == 10 {
        "a"
    } else if d == 11 {
        "b"
    } else if d == 12 {
        "c"
    } else if d == 13 {
        "d"
    } else if d == 14 {
        "e"
    } else {
        "f"
    }
}

/// Appends the decimal digits of `n` to `out`.
pub fn append_decimal(out: &mut String, n: u64)
    ensures
        final(out)@ == old(out)@ + decimal(n as nat),
    decreases n,
{
    if n >= 10 {
        append_decimal(out, n / 10);
    }
    out.append(digit_text(n % 10));
}

/// Appends the last `width` hexadecimal digits of `n` to `out`, zero-padded.
pub fn append_hex(out: &mut String, n: u64, width: usize)
    ensures
        final(out)@ == old(out)@ + hex(n as nat, width as nat),
    decreases width,
{
    if width > 0 {
        append_hex(out, n / 16, width - 1);
        out.append(digit_text(n % 16));
    }
}

/// `prefix` followed by the decimal digits of `n`.
pub fn with_decimal(prefix: &str, n: u64) -> (r: String)
    ensures
        r@ == prefix@ + decimal(n as nat),
{
    let mut out = prefix.to_owned();
    append_decimal(&mut out, n);
    out
}

/// `prefix` followed by `n` as eight hexadecimal digits.
pub fn with_hex8(prefix: &str, n: u32) -> (r: String)
    ensures
        r@ == prefix@ + hex(n as nat, 8),
{
    let mut out = prefix.to_owned();
    append_hex(&mut out, n as u64, 8);
    out
}

// ---------------------------------------------------------------------------
// Text to numbers
// ---------------------------------------------------------------------------

/// Why a piece of text is not an unsigned whole number of the wanted size.
#[derive(Clone, Copy, PartialEq, Eq, Structural, Debug)]
pub enum IntError {
    /// There was nothing to read.
    Empty,
    /// A character other than a digit came first.
    InvalidDigit,
    /// The digits exceed the largest value first.
    Overflow,
}

impl IntError {
    /// The explanation shown to users.
    pub open spec fn explanation(self) -> Seq<char> {
        match self {
            IntError::Empty => "cannot parse integer from empty string"@,
            IntError::InvalidDigit => "invalid digit found in string"@,
            IntError::Overflow => "number too large to fit in target type"@,
        }
    }

    /// The explanation shown to users.
    pub fn message(self) -> (r: &'static str)
        ensures
            r@ == self.explanation(),
    {
        match self {
            IntError::Empty => "cannot parse integer from empty string",
            IntError::InvalidDigit => "invalid digit found in string",
            IntError::Overflow => "number too large to fit in target type",
        }
    }
}

/// The value of a digit.
pub open spec fn digit_value(c: char) -> nat {
    (c as nat - '0' as nat) as nat
}

/// The number that `s` writes in decimal, where it holds digits only.
pub open spec fn decimal_value(s: Seq<char>) -> nat
    decreases s.len(),
{
    if s.len() == 0 {
        0
    } else {
        decimal_value(s.drop_last()) * 10 + digit_value(s.last())
    }
}

/// Whether every character of `s` is a digit.
pub open spec fn all_digits(s: Seq<char>) -> bool {
    forall|i: int| 0 <= i < s.len() ==> is_digit(#[trigger] s[i])
}

/// Reads `s` digit by digit, stopping at the first character that is not a
/// digit or that takes the number above `max`.
pub open spec fn read_digits(s: Seq<char>, max: nat) -> Result<nat, IntError>
    decreases s.len(),
{
    if s.len() == 0 {
        Ok(0)
    } else {
        match read_digits(s.drop_last(), max) {
            Err(e) => Err(e),
            Ok(v) => if !is_digit(s.last()) {
                Err(IntError::InvalidDigit)
            } else if v * 10 + digit_value(s.last()) > max {
                Err(IntError::Overflow)
            } else {
                Ok(v * 10 + digit_value(s.last()))
            },
        }
    }
}

/// `s` as an unsigned number of at most `max`: digits, optionally after one `+`.
pub open spec fn parsed(s: Seq<char>, max: nat) -> Result<nat, IntError> {
    if s.len() == 0 {
        Err(IntError::Empty)
    } else if s[0] == '+' && s.len() == 1 {
        Err(IntError::InvalidDigit)
    } else if s[0] == '+' {
        read_digits(s.skip(1), max)
    } else {
        read_digits(s, max)
    }
}

/// Digits are read successfully exactly when there are only digits and their
/// value fits, and the result is that value.
pub proof fn lemma_read_digits(s: Seq<char>, max: nat)
    ensures
        read_digits(s, max) is Ok <==> all_digits(s) && decimal_value(s) <= max,
        read_digits(s, max) is Ok ==> read_digits(s, max)->Ok_0 == decimal_value(s),
    decreases s.len(),
{
    if s.len() > 0 {
        let init = s.drop_last();
        lemma_read_digits(init, max);
        assert(forall|i: int| 0 <= i < init.len() ==> #[trigger] init[i] == s[i]);
        if all_digits(s) {
            assert(forall|i: int| 0 <= i < init.len() ==> is_digit(#[trigger] init[i]));
            assert(is_digit(s[s.len() - 1]));
        }
        if all_digits(init) && is_digit(s.last()) {
            assert forall|i: int| 0 <= i < s.len() implies is_digit(#[trigger] s[i]) by {
                if i < init.len() {
                    assert(init[i] == s[i]);
                }
            }
        }
    }
}

/// A number that is read is at most the maximum.
pub proof fn lemma_parsed_fits(s: Seq<char>, max: nat)
    ensures
        parsed(s, max) matches Ok(v) ==> v <= max,
{
    lemma_read_digits(s, max);
    if s.len() > 0 {
        lemma_read_digits(s.skip(1), max);
    }
}

/// Writing a number in decimal and reading it back gives the number, and the
/// text holds nothing but digits.
pub proof fn law_decimal_round_trip(n: nat, max: nat)
    requires
        n <= max,
    ensures
        parsed(decimal(n), max) == Ok::<nat, IntError>(n),
        all_digits(decimal(n)),
        decimal(n).len() > 0,
{
    lemma_decimal_value(n);
    lemma_read_digits(decimal(n), max);
    assert(is_digit(decimal(n)[0]));
}

proof fn lemma_decimal_value(n: nat)
    ensures
        decimal(n).len() > 0,
        all_digits(decimal(n)),
        decimal_value(decimal(n)) == n,
    decreases n,
{
    let d = decimal(n);
    if n < 10 {
        assert(d.drop_last() =~= Seq::empty());
        assert(decimal_value(d.drop_last()) == 0);
    } else {
        lemma_decimal_value(n / 10);
        assert(d.drop_last() =~= decimal(n / 10));
        assert(d.last() == digit_char((n % 10) as int));
        assert forall|i: int| 0 <= i < d.len() implies is_digit(#[trigger] d[i]) by {
            if i < d.len() - 1 {
                assert(d[i] == decimal(n / 10)[i]);
            }
        }
    }
}

/// Reads `s` from position `start` to its end as decimal digits.
fn digits_from(s: &Vec<char>, start: usize, max: u64) -> (r: Result<u64, IntError>)
    requires
        start <= s@.len(),
    ensures
        match r {
            Ok(v) => read_digits(s@.skip(start as int), max as nat) == Ok::<nat, IntError>(
                v as nat,
            ),
            Err(e) => read_digits(s@.skip(start as int), max as nat) == Err::<nat, IntError>(e),
        },
{
    let ghost all = s@.skip(start as int);
    let mut v: u64 = 0;
    let mut i: usize = start;
    while i < s.len()
        invariant
            start <= i <= s@.len(),
            all == s@.skip(start as int),
            v <= max,
            read_digits(all.take(i - start), max as nat) == Ok::<nat, IntError>(v as nat),
        decreases s@.len() - i,
    {
        let c = s[i];
        let ghost next = all.take(i + 1 - start);
        proof {
            assert(next.drop_last() =~= all.take(i - start));
            assert(next.last() == c);
        }
        if !('0' <= c && c <= '9') {
            proof {
                lemma_read_error(all, (i + 1 - start) as int, max as nat);
            }
            return Err(IntError::InvalidDigit);
        }
        let d: u64 = c as u64 - '0' as u64;
        let wide: u128 = v as u128 * 10 + d as u128;
        if wide > max as u128 {
            proof {
                lemma_read_error(all, (i + 1 - start) as int, max as nat);
            }
            return Err(IntError::Overflow);
        }
        v = wide as u64;
        i += 1;
    }
    proof {
        assert(all.take(i - start) =~= all);
    }
    Ok(v)
}

proof fn lemma_read_error(s: Seq<char>, n: int, max: nat)
    requires
        0 <= n <= s.len(),
        read_digits(s.take(n), max) is Err,
    ensures
        read_digits(s, max) == read_digits(s.take(n), max),
    decreases s.len(),
{
    if n == s.len() {
        assert(s.take(n) =~= s);
    } else {
        assert(s.drop_last().take(n) =~= s.take(n));
        lemma_read_error(s.drop_last(), n, max);
    }
}

/// Parses `s` as an unsigned number of at most `max`.
pub fn parse_number(s: &str, max: u64) -> (r: Result<u64, IntError>)
    ensures
        match r {
            Ok(v) => parsed(s@, max as nat) == Ok::<nat, IntError>(v as nat) && v <= max,
            Err(e) => parsed(s@, max as nat) == Err::<nat, IntError>(e),
        },
{
    let cs = chars_of(s);
    proof {
        lemma_read_digits(s@, max as nat);
        lemma_read_digits(s@.skip(1), max as nat);
        assert(s@.skip(0) =~= s@);
    }
    if cs.len() == 0 {
        Err(IntError::Empty)
    } else if cs[0] == '+' && cs.len() == 1 {
        Err(IntError::InvalidDigit)
    } else if cs[0] == '+' {
        digits_from(&cs, 1, max)
    } else {
        digits_from(&cs, 0, max)
    }
}

// ---------------------------------------------------------------------------
// Laws
// ---------------------------------------------------------------------------

/// Joining takes apart: the parts of two lists joined are the one list joined, the
/// separator, and the other list joined. A single part is joined to itself, and no
/// parts to nothing.
pub proof fn law_join_splits(a: Seq<Seq<char>>, b: Seq<Seq<char>>, sep: Seq<char>, part: Seq<char>)
    ensures
        joined(Seq::empty(), sep) == Seq::<char>::empty(),
        joined(seq![part], sep) == part,
        a.len() > 0 && b.len() > 0 ==> joined(a + b, sep) == joined(a, sep) + sep + joined(b, sep),
    decreases b.len(),
{
    if a.len() > 0 && b.len() > 0 {
        let init = b.drop_last();
        assert((a + b).drop_last() =~= a + init);
        assert((a + b).last() == b.last());
        if b.len() == 1 {
            assert(a + init =~= a);
            assert(joined(b, sep) == b[0]);
        } else {
            law_join_splits(a, init, sep, part);
            assert(joined(a + b, sep) =~= joined(a, sep) + sep + joined(b, sep));
        }
    }
}

/// The digits are the ten characters from `0` to `9`, with the values zero to nine.
pub proof fn law_digits(c: char)
    ensures
        is_digit(c) <==> c == '0' || c == '1' || c == '2' || c == '3' || c == '4' || c == '5' || c
            == '6' || c == '7' || c == '8' || c == '9',
        digit_value('0') == 0,
        is_digit(c) ==> digit_value(c) <= 9 && digit_char(digit_value(c) as int) == c,
        digit_char(10) == 'a',
        digit_char(11) == 'b',
        digit_char(12) == 'c',
        digit_char(13) == 'd',
        digit_char(14) == 'e',
        digit_char(15) == 'f',
{
}

/// A run ends at the first character that does not belong to it: white space at
/// the first that is not white, a word at the first that is, digits at the first
/// that is none, and so on.
pub proof fn law_runs_end_where_they_break(s: Seq<char>, i: int)
    requires
        0 <= i <= s.len(),
    ensures
        forall|run: Run|
            i <= #[trigger] run_end(run, s, i) <= s.len(),
        forall|k: int| i <= k < run_end(Run::White, s, i) ==> is_white(#[trigger] s[k]),
        run_end(Run::White, s, i) < s.len() ==> !is_white(s[run_end(Run::White, s, i)]),
        forall|k: int| i <= k < run_end(Run::Word, s, i) ==> !is_white(#[trigger] s[k]),
        run_end(Run::Word, s, i) < s.len() ==> is_white(s[run_end(Run::Word, s, i)]),
        forall|k: int| i <= k < run_end(Run::Digits, s, i) ==> is_digit(#[trigger] s[k]),
        run_end(Run::Digits, s, i) < s.len() ==> !is_digit(s[run_end(Run::Digits, s, i)]),
        forall|k: int| i <= k < run_end(Run::NonDigits, s, i) ==> !is_digit(#[trigger] s[k]),
        run_end(Run::NonDigits, s, i) < s.len() ==> is_digit(s[run_end(Run::NonDigits, s, i)]),
        forall|k: int| i <= k < run_end(Run::NonDots, s, i) ==> #[trigger] s[k] != '.',
        run_end(Run::NonDots, s, i) < s.len() ==> s[run_end(Run::NonDots, s, i)] == '.',
        forall|k: int| i <= k < run_end(Run::Line, s, i) ==> #[trigger] s[k] != '\n',
        run_end(Run::Line, s, i) < s.len() ==> s[run_end(Run::Line, s, i)] == '\n',
{
    assert forall|run: Run| i <= #[trigger] run_end(run, s, i) <= s.len() by {
        lemma_run_end(run, s, i);
    }
    lemma_run_end(Run::White, s, i);
    lemma_run_end(Run::Word, s, i);
    lemma_run_end(Run::Digits, s, i);
    lemma_run_end(Run::NonDigits, s, i);
    lemma_run_end(Run::NonDots, s, i);
    lemma_run_end(Run::Line, s, i);
}

/// Whether every character of `s` is white space.
pub open spec fn all_white(s: Seq<char>) -> bool {
    forall|k: int| 0 <= k < s.len() ==> is_white(#[trigger] s[k])
}

proof fn lemma_trimmed_end(s: Seq<char>) -> (n: int)
    ensures
        0 <= n <= s.len(),
        trimmed_end(s) == s.take(n),
        forall|k: int| n <= k < s.len() ==> is_white(#[trigger] s[k]),
        n > 0 ==> !is_white(s[n - 1]),
    decreases s.len(),
{
    if s.len() > 0 && is_white(s.last()) {
        let n = lemma_trimmed_end(s.drop_last());
        assert(s.drop_last().take(n) =~= s.take(n));
        assert forall|k: int| n <= k < s.len() implies is_white(#[trigger] s[k]) by {
            if k < s.len() - 1 {
                assert(s.drop_last()[k] == s[k]);
            }
        }
        n
    } else {
        assert(s.take(s.len() as int) =~= s);
        s.len() as int
    }
}

/// Trimming takes white space off both ends and nothing else: what is left begins
/// and ends with other characters, and all that is taken off is white.
pub proof fn law_trimming(s: Seq<char>)
    ensures
        exists|front: Seq<char>, back: Seq<char>|
            s == #[trigger] (front + trimmed(s) + back) && all_white(front) && all_white(back),
        trimmed(s).len() > 0 ==> !is_white(trimmed(s)[0]) && !is_white(trimmed(s).last()),
{
    let start = run_end(Run::White, s, 0);
    lemma_run_end(Run::White, s, 0);
    let tail = s.skip(start);
    let n = lemma_trimmed_end(tail);
    let front = s.take(start);
    let back = tail.skip(n);
    assert(front + trimmed(s) + back =~= s);
    assert forall|k: int| 0 <= k < back.len() implies is_white(#[trigger] back[k]) by {
        assert(back[k] == tail[n + k]);
    }
    if n > 0 {
        assert(trimmed(s)[0] == s[start]);
        assert(trimmed(s).last() == tail[n - 1]);
    }
}

/// White space around a text makes no difference to trimming, and a text that
/// neither begins nor ends with it is left alone.
pub proof fn law_trimming_ignores_white_ends(front: Seq<char>, core: Seq<char>, back: Seq<char>)
    requires
        all_white(front),
        all_white(back),
        core.len() > 0,
        !is_white(core[0]),
        !is_white(core.last()),
    ensures
        trimmed(front + core + back) == core,
{
    let s = front + core + back;
    let start = run_end(Run::White, s, 0);
    lemma_run_end(Run::White, s, 0);
    assert(s[front.len() as int] == core[0]);
    if start < front.len() {
        assert(s[start] == front[start]);
    }
    assert(start == front.len());
    let tail = s.skip(start);
    assert(tail =~= core + back);
    let n = lemma_trimmed_end(tail);
    assert(tail[core.len() - 1] == core.last());
    if n > core.len() {
        assert(tail[n - 1] == back[n - 1 - core.len()]);
    }
    assert(n == core.len());
    assert(tail.take(n) =~= core);
}

/// Whether no character of `s` is white space.
pub open spec fn no_white(s: Seq<char>) -> bool {
    forall|k: int| 0 <= k < s.len() ==> !is_white(#[trigger] s[k])
}

/// The words of a text are what white space leaves: after leading white space the
/// first word, after more of it the second, whatever follows behind another.
pub proof fn law_words(
    before: Seq<char>,
    first: Seq<char>,
    between: Seq<char>,
    second: Seq<char>,
    rest: Seq<char>,
)
    requires
        all_white(before),
        all_white(between),
        between.len() > 0,
        no_white(first),
        first.len() > 0,
        no_white(second),
        second.len() > 0,
        rest.len() == 0 || is_white(rest[0]),
    ensures
        first_word(before + first + between + second + rest) == Some(first),
        second_word(before + first + between + second + rest) == Some(second),
{
    let s = before + first + between + second + rest;
    let a = before.len() as int;
    let b = a + first.len();
    let c = b + between.len();
    let d = c + second.len();
    lemma_stretch(Run::White, s, 0, a, before);
    lemma_stretch(Run::Word, s, a, b, first);
    lemma_stretch(Run::White, s, b, c, between);
    lemma_stretch(Run::Word, s, c, d, second);
    assert(s.subrange(a, b) =~= first);
    assert(s.subrange(c, d) =~= second);
}

/// A text has no first word exactly when it is white throughout, and no second one
/// when nothing but white space surrounds the first.
pub proof fn law_missing_words(before: Seq<char>, first: Seq<char>, after: Seq<char>)
    requires
        all_white(before),
        all_white(after),
        no_white(first),
        first.len() > 0,
    ensures
        first_word(before) is None,
        second_word(before) is None,
        first_word(before + first + after) == Some(first),
        second_word(before + first + after) is None,
{
    let s = before + first + after;
    let a = before.len() as int;
    let b = a + first.len();
    lemma_stretch(Run::White, before, 0, a, before);
    assert(run_end(Run::Word, before, a) == a);
    assert(run_end(Run::White, before, a) == a);
    lemma_stretch(Run::White, s, 0, a, before);
    lemma_stretch(Run::Word, s, a, b, first);
    lemma_stretch(Run::White, s, b, s.len() as int, after);
    assert(s.subrange(a, b) =~= first);
}

proof fn lemma_stretch(run: Run, s: Seq<char>, i: int, j: int, part: Seq<char>)
    requires
        0 <= i <= j <= s.len(),
        part =~= s.subrange(i, j),
        forall|k: int| 0 <= k < part.len() ==> in_run(run, #[trigger] part[k]),
        j < s.len() ==> !in_run(run, s[j]),
    ensures
        run_end(run, s, i) == j,
{
    lemma_run_end(run, s, i);
    let end = run_end(run, s, i);
    if end < j {
        assert(part[end - i] == s[end]);
    }
}

/// Ten to the power `i`.
pub open spec fn ten_to(i: nat) -> nat
    decreases i,
{
    if i == 0 {
        1
    } else {
        10 * ten_to((i - 1) as nat)
    }
}

/// Sixteen to the power `i`.
pub open spec fn sixteen_to(i: nat) -> nat
    decreases i,
{
    if i == 0 {
        1
    } else {
        16 * sixteen_to((i - 1) as nat)
    }
}

proof fn lemma_divide_twice(n: nat, base: nat, power: nat)
    requires
        base > 0,
        power > 0,
    ensures
        n / (base * power) == (n / base) / power,
        base * power > 0,
{
    vstd::arithmetic::div_mod::lemma_div_denominator(n as int, base as int, power as int);
    assert(base * power > 0) by (nonlinear_arith)
        requires
            base > 0,
            power > 0,
    ;
}

proof fn lemma_powers(i: nat)
    ensures
        ten_to(i) > 0,
        sixteen_to(i) > 0,
    decreases i,
{
    if i > 0 {
        lemma_powers((i - 1) as nat);
    }
}

/// Decimal text is positional: the digit `i` places from the right counts the
/// powers of ten, and there is no leading zero.
pub proof fn law_decimal_is_positional(n: nat, i: nat)
    requires
        i < decimal(n).len(),
    ensures
        digit_value(decimal(n)[decimal(n).len() - 1 - i]) == (n / ten_to(i)) % 10,
        is_digit(decimal(n)[decimal(n).len() - 1 - i]),
        n > 0 ==> decimal(n)[0] != '0',
        n == 0 ==> decimal(n) == seq!['0'],
    decreases n,
{
    lemma_powers(i);
    if n >= 10 {
        let rest = decimal(n / 10);
        lemma_decimal_value(n / 10);
        assert(decimal(n)[0] == rest[0]);
        law_decimal_is_positional(n / 10, 0);
        if i > 0 {
            let j = (i - 1) as nat;
            law_decimal_is_positional(n / 10, j);
            lemma_powers(j);
            lemma_divide_twice(n, 10, ten_to(j));
            assert(decimal(n)[decimal(n).len() - 1 - i] == rest[rest.len() - 1 - j]);
        }
    } else {
        assert(i == 0);
    }
}

/// Hexadecimal text is positional and has the width asked for: the digit `i` places
/// from the right counts the powers of sixteen.
pub proof fn law_hex_is_positional(n: nat, width: nat, i: nat)
    ensures
        hex(n, width).len() == width,
        i < width ==> hex(n, width)[width - 1 - i] == digit_char(
            ((n / sixteen_to(i)) % 16) as int,
        ),
    decreases width,
{
    if width > 0 {
        let rest = hex(n / 16, (width - 1) as nat);
        law_hex_is_positional(n / 16, (width - 1) as nat, 0);
        assert(sixteen_to(0) == 1);
        assert(n / 1 == n);
        if 0 < i < width {
            let j = (i - 1) as nat;
            law_hex_is_positional(n / 16, (width - 1) as nat, j);
            lemma_powers(j);
            lemma_divide_twice(n, 16, sixteen_to(j));
            assert(hex(n, width)[width - 1 - i] == rest[rest.len() - 1 - j]);
        }
    }
}

/// `s` without one leading plus sign, unless that is all of it.
pub open spec fn unsigned(s: Seq<char>) -> Seq<char> {
    if s.len() > 1 && s[0] == '+' {
        s.skip(1)
    } else {
        s
    }
}

/// Numbers are read from digits alone, after at most one plus sign, and are what
/// the digits say in decimal.
pub proof fn law_reading_numbers(s: Seq<char>, max: nat)
    ensures
        parsed(s, max) is Ok <==> s.len() > 0 && all_digits(unsigned(s)) && decimal_value(
            unsigned(s),
        ) <= max,
        parsed(s, max) is Ok ==> parsed(s, max)->Ok_0 == decimal_value(unsigned(s)),
        parsed(s, max) == Err::<nat, IntError>(IntError::Empty) <==> s.len() == 0,
{
    lemma_read_digits(unsigned(s), max);
    lemma_never_empty(unsigned(s), max);
    if s.len() == 1 && s[0] == '+' {
        assert(!is_digit(unsigned(s)[0]));
    }
}

proof fn lemma_never_empty(s: Seq<char>, max: nat)
    ensures
        read_digits(s, max) != Err::<nat, IntError>(IntError::Empty),
    decreases s.len(),
{
    if s.len() > 0 {
        lemma_never_empty(s.drop_last(), max);
    }
}

/// Where a number cannot be read, the error tells what came first: a character that
/// is no digit, or a digit that took the number above the largest one.
pub proof fn law_first_obstacle_decides(s: Seq<char>, k: int, max: nat)
    requires
        s.len() > 0,
        0 <= k < unsigned(s).len(),
        all_digits(unsigned(s).take(k)),
        decimal_value(unsigned(s).take(k)) <= max,
    ensures
        !is_digit(unsigned(s)[k]) ==> parsed(s, max) == Err::<nat, IntError>(IntError::InvalidDigit),
        is_digit(unsigned(s)[k]) && decimal_value(unsigned(s).take(k + 1)) > max ==> parsed(s, max)
            == Err::<nat, IntError>(IntError::Overflow),
{
    let t = unsigned(s);
    lemma_read_digits(t.take(k), max);
    assert(t.take(k + 1).drop_last() =~= t.take(k));
    assert(t.take(k + 1).last() == t[k]);
    if read_digits(t.take(k + 1), max) is Err {
        lemma_read_error(t, k + 1, max);
    }
}

/// The value of a digit string weighs every digit by its place.
pub proof fn law_decimal_value_is_positional(s: Seq<char>, d: char)
    ensures
        decimal_value(Seq::empty()) == 0,
        decimal_value(s.push(d)) == 10 * decimal_value(s) + digit_value(d),
{
    assert(s.push(d).drop_last() =~= s);
}

/// The errors explain themselves as users know it.
pub proof fn law_explanations()
    ensures
        IntError::Empty.explanation() == "cannot parse integer from empty string"@,
        IntError::InvalidDigit.explanation() == "invalid digit found in string"@,
        IntError::Overflow.explanation() == "number too large to fit in target type"@,
{
}

/// What the functions on text return is what the laws speak of.
pub proof fn law_text_functions(
    s: &str,
    t: &str,
    list: &Vec<String>,
    same: bool,
    both: String,
    there: bool,
    all: String,
    bare: String,
    words: (Option<String>, Option<String>),
    n: u64,
    in_decimal: String,
    m: u32,
    in_hex: String,
    max: u64,
    number: Result<u64, IntError>,
)
    requires
        call_ensures(same_text, (s, t), same),
        call_ensures(concat2, (s, t), both),
        call_ensures(contains_text, (list, s), there),
        call_ensures(join, (list, s), all),
        call_ensures(trim, (s,), bare),
        call_ensures(first_two_words, (s,), words),
        call_ensures(with_decimal, (s, n), in_decimal),
        call_ensures(with_hex8, (s, m), in_hex),
        call_ensures(parse_number, (s, max), number),
    ensures
        same <==> s@ == t@,
        both@ == s@ + t@,
        there <==> exists|k: int| 0 <= k < list@.len() && (#[trigger] list@[k])@ == s@,
        all@ == joined(list.deep_view(), s@),
        bare@ == trimmed(s@),
        words.0 is Some <==> first_word(s@) is Some,
        words.0 is Some ==> words.0->0@ == first_word(s@)->0,
        words.1 is Some <==> second_word(s@) is Some,
        words.1 is Some ==> words.1->0@ == second_word(s@)->0,
        in_decimal@ == s@ + decimal(n as nat),
        in_hex@ == s@ + hex(m as nat, 8),
        number is Ok <==> parsed(s@, max as nat) is Ok,
        number is Ok ==> number->Ok_0 == parsed(s@, max as nat)->Ok_0,
        number is Err ==> number->Err_0 == parsed(s@, max as nat)->Err_0,
{
    let entries = list.deep_view();
    assert(entries.len() == list@.len());
    if entries.contains(s@) {
        let k = choose|k: int| 0 <= k < entries.len() && entries[k] == s@;
        assert(list@[k]@ == s@);
    }
    if exists|k: int| 0 <= k < list@.len() && (#[trigger] list@[k])@ == s@ {
        let k = choose|k: int| 0 <= k < list@.len() && (#[trigger] list@[k])@ == s@;
        assert(entries[k] == s@);
    }
}

} // verus!
