//! Character classes, maximal runs of characters, and the conversions
//! between strings, character buffers and decimal numbers that both
//! grammars are built on.

use vstd::prelude::*;

verus! {

/// The classes of characters that the grammars tell apart.
#[derive(Clone, Copy, Debug, PartialEq, Eq)]
pub enum CharClass {
    /// Whitespace: it separates tokens and is never part of one.
    Space,
    /// A character of a bare word in a script: anything but whitespace, the
    /// quote mark, the braces and the operator characters `=`, `?`, `<`, `>`.
    Word,
    /// A character of a name in a localization file: a word character other
    /// than the colon.
    Name,
    /// An ASCII decimal digit.
    Digit,
    /// Anything but the quote mark: the inside of a quoted literal.
    Quoted,
    /// Anything but the line feed: the inside of a line.
    Line,
}

/// Whitespace: space, tab, line feed, carriage return, vertical tab and
/// form feed.
pub open spec fn is_space(c: char) -> bool {
    c == ' ' || c == '\t' || c == '\n' || c == '\r' || c == '\u{b}' || c == '\u{c}'
}

/// The characters that no bare word holds: the quote mark, the braces and
/// the operator characters.
pub open spec fn is_reserved(c: char) -> bool {
    c == '"' || c == '{' || c == '}' || c == '=' || c == '?' || c == '<' || c == '>'
}

/// A character of a bare word.
pub open spec fn is_word_char(c: char) -> bool {
    !is_space(c) && !is_reserved(c)
}

/// An ASCII decimal digit.
pub open spec fn is_digit(c: char) -> bool {
    '0' <= c <= '9'
}

/// Whether `c` belongs to the class `k`.
pub open spec fn in_class(c: char, k: CharClass) -> bool {
    match k {
        CharClass::Space => is_space(c),
        CharClass::Word => is_word_char(c),
        CharClass::Name => is_word_char(c) && c != ':',
        CharClass::Digit => is_digit(c),
        CharClass::Quoted => c != '"',
        CharClass::Line => c != '\n',
    }
}

/// Whether every character of `s` belongs to the class `k`.
pub open spec fn all_in_class(s: Seq<char>, k: CharClass) -> bool {
    forall|i: int| 0 <= i < s.len() ==> in_class(#[trigger] s[i], k)
}

/// The length of the longest prefix of `s` made of characters of class `k`.
pub open spec fn run_len(s: Seq<char>, k: CharClass) -> nat
    decreases s.len(),
{
    if s.len() > 0 && in_class(s[0], k) {
        1 + run_len(s.drop_first(), k)
    } else {
        0
    }
}

/// `s` without its leading whitespace.
pub open spec fn trim_start(s: Seq<char>) -> Seq<char> {
    s.skip(run_len(s, CharClass::Space) as int)
}

/// `s` without its trailing whitespace.
pub open spec fn trim_end(s: Seq<char>) -> Seq<char>
    decreases s.len(),
{
    if s.len() > 0 && is_space(s.last()) {
        trim_end(s.drop_last())
    } else {
        s
    }
}

/// The run is a prefix, every character in it is of the class, and the
/// character after it, if there is one, is not.
pub proof fn lemma_run_len_holds(s: Seq<char>, k: CharClass)
    ensures
        run_len(s, k) <= s.len(),
        all_in_class(s.take(run_len(s, k) as int), k),
        run_len(s, k) < s.len() ==> !in_class(s[run_len(s, k) as int], k),
    decreases s.len(),
{
    if s.len() > 0 && in_class(s[0], k) {
        let t = s.drop_first();
        lemma_run_len_holds(t, k);
        let n = run_len(t, k) as int;
        assert forall|i: int| 0 <= i < n + 1 implies in_class(#[trigger] s.take(n + 1)[i], k) by {
            if i > 0 {
                assert(s.take(n + 1)[i] == t.take(n)[i - 1]);
            }
        }
        if n + 1 < s.len() {
            assert(s[n + 1] == t[n]);
        }
    }
}

/// A prefix of class `k` that ends the sequence, or is followed by a
/// character outside the class, is the run.
pub proof fn lemma_run_len_is(s: Seq<char>, k: CharClass, n: int)
    requires
        0 <= n <= s.len(),
        all_in_class(s.take(n), k),
        n < s.len() ==> !in_class(s[n], k),
    ensures
        run_len(s, k) == n,
    decreases n,
{
    if n > 0 {
        assert(s[0] == s.take(n)[0]);
        let t = s.drop_first();
        assert forall|i: int| 0 <= i < n - 1 implies in_class(#[trigger] t.take(n - 1)[i], k) by {
            assert(t.take(n - 1)[i] == s.take(n)[i + 1]);
        }
        if n - 1 < t.len() {
            assert(t[n - 1] == s[n]);
        }
        lemma_run_len_is(t, k, n - 1);
    }
}

/// The run of `a + b` is `a` when `a` is of the class and `b` does not go on
/// with it.
pub proof fn lemma_run_len_prefix(a: Seq<char>, b: Seq<char>, k: CharClass)
    requires
        all_in_class(a, k),
        b.len() > 0 ==> !in_class(b[0], k),
    ensures
        run_len(a + b, k) == a.len(),
{
    let s = a + b;
    assert(s.take(a.len() as int) =~= a);
    if b.len() > 0 {
        assert(s[a.len() as int] == b[0]);
    }
    lemma_run_len_is(s, k, a.len() as int);
}

/// What `trim_end` returns is a prefix that is empty or ends in something
/// other than whitespace, and what it removed is whitespace.
pub proof fn lemma_trim_end_holds(s: Seq<char>)
    ensures
        trim_end(s).len() <= s.len(),
        trim_end(s) == s.take(trim_end(s).len() as int),
        trim_end(s).len() > 0 ==> !is_space(trim_end(s).last()),
        all_in_class(s.skip(trim_end(s).len() as int), CharClass::Space),
    decreases s.len(),
{
    if s.len() > 0 && is_space(s.last()) {
        let t = s.drop_last();
        lemma_trim_end_holds(t);
        let n = trim_end(t).len() as int;
        assert(t.take(n) =~= s.take(n));
        assert forall|i: int| 0 <= i < s.skip(n).len() implies in_class(
            #[trigger] s.skip(n)[i],
            CharClass::Space,
        ) by {
            if i < t.skip(n).len() {
                assert(s.skip(n)[i] == t.skip(n)[i]);
            } else {
                assert(s.skip(n)[i] == s.last());
            }
        }
    } else {
        assert(s.take(s.len() as int) =~= s);
    }
}

/// Tells whether `c` belongs to the class `k`.
pub fn char_in_class(c: char, k: CharClass) -> (b: bool)
    ensures
        b == in_class(c, k),
{
    let space = c == ' ' || c == '\t' || c == '\n' || c == '\r' || c == '\u{b}' || c == '\u{c}';
    let reserved = c == '"' || c == '{' || c == '}' || c == '=' || c == '?' || c == '<' || c
        == '>';
    match k {
        CharClass::Space => space,
        CharClass::Word => !space && !reserved,
        CharClass::Name => !space && !reserved && c != ':',
        CharClass::Digit => '0' <= c && c <= '9',
        CharClass::Quoted => c != '"',
        CharClass::Line => c != '\n',
    }
}

/// Finds where the run of class `k` that starts at `from` ends, in the
/// text up to `to`.
pub fn scan_run_within(text: &Vec<char>, from: usize, to: usize, k: CharClass) -> (end: usize)
    requires
        from <= to <= text.len(),
    ensures
        from <= end <= to,
        end - from == run_len(text@.subrange(from as int, to as int), k),
{
    let mut end: usize = from;
    while end < to && char_in_class(text[end], k)
        invariant
            from <= end <= to <= text.len(),
            forall|j: int| from <= j < end ==> in_class(#[trigger] text@[j], k),
        decreases to - end,
    {
        end += 1;
    }
    proof {
        let s = text@.subrange(from as int, to as int);
        let n = end - from;
        assert forall|i: int| 0 <= i < n implies in_class(#[trigger] s.take(n)[i], k) by {
            assert(s.take(n)[i] == text@[from + i]);
        }
        if n < s.len() {
            assert(s[n] == text@[end as int]);
        }
        lemma_run_len_is(s, k, n);
    }
    end
}

/// Finds where the run of class `k` that starts at `from` ends.
pub fn scan_run(text: &Vec<char>, from: usize, k: CharClass) -> (end: usize)
    requires
        from <= text.len(),
    ensures
        from <= end <= text.len(),
        end - from == run_len(text@.skip(from as int), k),
{
    assert(text@.subrange(from as int, text.len() as int) =~= text@.skip(from as int));
    scan_run_within(text, from, text.len(), k)
}

/// Finds where the text between `from` and `to` ends once its trailing
/// whitespace is taken off.
pub fn scan_trim_end(text: &Vec<char>, from: usize, to: usize) -> (end: usize)
    requires
        from <= to <= text.len(),
    ensures
        from <= end <= to,
        text@.subrange(from as int, end as int) == trim_end(text@.subrange(from as int, to as int)),
{
    let mut end: usize = to;
    while end > from && char_in_class(text[end - 1], CharClass::Space)
        invariant
            from <= end <= to <= text.len(),
            trim_end(text@.subrange(from as int, end as int)) == trim_end(
                text@.subrange(from as int, to as int),
            ),
        decreases end,
    {
        proof {
            let s = text@.subrange(from as int, end as int);
            assert(s.last() == text@[end - 1]);
            assert(s.drop_last() =~= text@.subrange(from as int, end - 1));
        }
        end -= 1;
    }
    proof {
        let s = text@.subrange(from as int, end as int);
        if s.len() > 0 {
            assert(s.last() == text@[end - 1]);
        }
    }
    end
}

/// `String::push` appends one character to the string.
pub assume_specification[ String::push ](s: &mut String, c: char)
    ensures
        final(s)@ == old(s)@.push(c),
;

/// The characters of a string, in a buffer that can be indexed.
pub fn to_chars(s: &str) -> (v: Vec<char>)
    ensures
        v@ == s@,
{
    let mut v: Vec<char> = Vec::new();
    for c in it: s.chars()
        invariant
            v@ == it.seq().take(it.index() as int),
    {
        v.push(c);
    }
    v
}

/// The characters between `from` and `to`, as a string.
pub fn collect_string(text: &Vec<char>, from: usize, to: usize) -> (s: String)
    requires
        from <= to <= text.len(),
    ensures
        s@ == text@.subrange(from as int, to as int),
{
    let mut s = String::new();
    let mut i: usize = from;
    while i < to
        invariant
            from <= i <= to <= text.len(),
            s@ == text@.subrange(from as int, i as int),
        decreases to - i,
    {
        s.push(text[i]);
        i += 1;
        assert(s@ =~= text@.subrange(from as int, i as int));
    }
    s
}

/// The decimal digit that stands for `d`.
pub open spec fn digit_of(d: nat) -> char
    recommends
        d < 10,
{
    (48 + d) as char
}

/// What the decimal digit `c` stands for.
pub open spec fn digit_value(c: char) -> nat
    recommends
        is_digit(c),
{
    (c as int - 48) as nat
}

/// `n` in decimal, without leading zeros.
pub open spec fn decimal(n: nat) -> Seq<char>
    decreases n,
{
    if n < 10 {
        seq![digit_of(n)]
    } else {
        decimal(n / 10).push(digit_of(n % 10))
    }
}

/// The number that a run of decimal digits stands for.
pub open spec fn digits_value(s: Seq<char>) -> nat
    decreases s.len(),
{
    if s.len() == 0 {
        0
    } else {
        10 * digits_value(s.drop_last()) + digit_value(s.last())
    }
}

/// A number in decimal is a run of digits, at least one, that stands for
/// the number.
pub proof fn lemma_decimal_holds(n: nat)
    ensures
        decimal(n).len() > 0,
        all_in_class(decimal(n), CharClass::Digit),
        digits_value(decimal(n)) == n,
    decreases n,
{
    if n < 10 {
        assert(decimal(n).drop_last() =~= Seq::<char>::empty());
        assert(digits_value(decimal(n).drop_last()) == 0);
    } else {
        lemma_decimal_holds(n / 10);
        let s = decimal(n / 10);
        assert(decimal(n).drop_last() =~= s);
        assert forall|i: int| 0 <= i < decimal(n).len() implies in_class(
            #[trigger] decimal(n)[i],
            CharClass::Digit,
        ) by {
            if i < s.len() {
                assert(decimal(n)[i] == s[i]);
            }
        }
    }
}

/// Appends `n` in decimal to `out`.
pub fn push_decimal(out: &mut String, n: usize)
    ensures
        final(out)@ == old(out)@ + decimal(n as nat),
    decreases n,
{
    if n >= 10 {
        push_decimal(out, n / 10);
    }
    let d: u8 = (n % 10) as u8;
    let c: char = (48u8 + d) as char;
    out.push(c);
    proof {
        if n >= 10 {
            assert(final(out)@ =~= old(out)@ + decimal(n as nat));
        } else {
            assert(final(out)@ =~= old(out)@ + decimal(n as nat));
        }
    }
}

/// Reads the digits between `from` and `to` as a number that fits in a
/// byte; `None` when it does not fit.
pub fn read_byte(text: &Vec<char>, from: usize, to: usize) -> (r: Option<u8>)
    requires
        from <= to <= text.len(),
        all_in_class(text@.subrange(from as int, to as int), CharClass::Digit),
    ensures
        match r {
            Some(n) => digits_value(text@.subrange(from as int, to as int)) == n,
            None => digits_value(text@.subrange(from as int, to as int)) > 255,
        },
{
    let mut acc: u32 = 0;
    let mut i: usize = from;
    while i < to
        invariant
            from <= i <= to <= text.len(),
            all_in_class(text@.subrange(from as int, to as int), CharClass::Digit),
            acc <= 255,
            acc == digits_value(text@.subrange(from as int, i as int)),
        decreases to - i,
    {
        let c: char = text[i];
        proof {
            let whole = text@.subrange(from as int, to as int);
            assert(in_class(whole[i - from], CharClass::Digit));
            let s = text@.subrange(from as int, i + 1);
            assert(s.drop_last() =~= text@.subrange(from as int, i as int));
            assert(s.last() == c);
        }
        let d: u32 = (c as u32) - 48;
        acc = acc * 10 + d;
        i += 1;
        if acc > 255 {
            proof {
                assert(text@.subrange(from as int, to as int).take(i - from) =~= text@.subrange(
                    from as int,
                    i as int,
                ));
                lemma_digits_value_grows(
                    text@.subrange(from as int, i as int),
                    text@.subrange(from as int, to as int),
                );
            }
            return None;
        }
    }
    Some(acc as u8)
}

/// More digits behind a run never make the number smaller.
pub proof fn lemma_digits_value_grows(a: Seq<char>, s: Seq<char>)
    requires
        a.len() <= s.len(),
        s.take(a.len() as int) == a,
    ensures
        digits_value(a) <= digits_value(s),
    decreases s.len(),
{
    if a.len() < s.len() {
        assert(s.drop_last().take(a.len() as int) =~= s.take(a.len() as int));
        lemma_digits_value_grows(a, s.drop_last());
    } else {
        assert(s.take(a.len() as int) =~= s);
    }
}

} // verus!
