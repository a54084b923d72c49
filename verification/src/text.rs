//! Strings as sequences of characters: comparing, cutting, joining, numerals.
use vstd::prelude::*;

verus! {

// ---------------------------------------------------------------------------
// What the operations mean
// ---------------------------------------------------------------------------

/// The decimal digit of `d`.
pub open spec fn digit(d: nat) -> char {
    (48 + d) as char
}

/// The decimal numeral of `n`.
pub open spec fn decimal(n: nat) -> Seq<char>
    decreases n,
{
    if n < 10 {
        seq![digit(n)]
    } else {
        decimal(n / 10).push(digit(n % 10))
    }
}

/// The octal numeral of `n`.
pub open spec fn octal(n: nat) -> Seq<char>
    decreases n,
{
    if n < 8 {
        seq![digit(n)]
    } else {
        octal(n / 8).push(digit(n % 8))
    }
}

/// `s` with zeros in front up to `width` characters.
pub open spec fn zero_padded(s: Seq<char>, width: nat) -> Seq<char> {
    if s.len() < width {
        Seq::new((width - s.len()) as nat, |i: int| '0') + s
    } else {
        s
    }
}

/// `s` with spaces behind up to `width` characters.
pub open spec fn space_padded(s: Seq<char>, width: nat) -> Seq<char> {
    if s.len() < width {
        s + Seq::new((width - s.len()) as nat, |i: int| ' ')
    } else {
        s
    }
}

pub open spec fn is_digit(c: char) -> bool {
    '0' <= c <= '9'
}

pub open spec fn all_digits(s: Seq<char>) -> bool {
    forall|i: int| 0 <= i < s.len() ==> is_digit(#[trigger] s[i])
}

/// The number that a run of decimal digits denotes.
pub open spec fn number(s: Seq<char>) -> nat
    decreases s.len(),
{
    if s.len() == 0 {
        0
    } else {
        number(s.drop_last()) * 10 + ((s.last() as int - 48) as nat)
    }
}

/// The number that `s` denotes, when it is a non-empty run of digits.
pub open spec fn digits_value(s: Seq<char>) -> Option<nat> {
    if s.len() > 0 && all_digits(s) {
        Some(number(s))
    } else {
        None
    }
}

/// The natural number that `s` denotes: digits, with `+` in front or not.
pub open spec fn natural_value(s: Seq<char>) -> Option<nat> {
    if s.len() > 0 && s[0] == '+' {
        digits_value(s.skip(1))
    } else {
        digits_value(s)
    }
}

/// The integer that `s` denotes: digits, with a sign in front or not.
pub open spec fn integer_value(s: Seq<char>) -> Option<int> {
    if s.len() > 0 && s[0] == '-' {
        match digits_value(s.skip(1)) {
            Some(n) => Some(-(n as int)),
            None => None,
        }
    } else {
        match natural_value(s) {
            Some(n) => Some(n as int),
            None => None,
        }
    }
}

/// Whether `a` stands before `b` in the order of code points, position by position.
pub open spec fn precedes(a: Seq<char>, b: Seq<char>) -> bool
    decreases a.len(),
{
    if b.len() == 0 {
        false
    } else if a.len() == 0 {
        true
    } else if a[0] != b[0] {
        a[0] < b[0]
    } else {
        precedes(a.skip(1), b.skip(1))
    }
}

pub open spec fn starts_with(s: Seq<char>, prefix: Seq<char>) -> bool {
    prefix.len() <= s.len() && s.take(prefix.len() as int) == prefix
}

/// Whether `needle` occurs in `s` at position `i`.
pub open spec fn occurs_at(s: Seq<char>, needle: Seq<char>, i: int) -> bool {
    0 <= i && i + needle.len() <= s.len() && s.subrange(i, i + needle.len()) == needle
}

pub open spec fn contains(s: Seq<char>, needle: Seq<char>) -> bool {
    exists|i: int| occurs_at(s, needle, i)
}

/// The first position at which `needle` occurs in `s`, if it does.
#[verifier::opaque]
pub open spec fn first_at(s: Seq<char>, needle: Seq<char>) -> Option<int> {
    if contains(s, needle) {
        Some(
            choose|i: int|
                occurs_at(s, needle, i) && forall|k: int| 0 <= k < i ==> !occurs_at(s, needle, k),
        )
    } else {
        None
    }
}

/// `s` without the `c`s at its end.
pub open spec fn trimmed_end(s: Seq<char>, c: char) -> Seq<char>
    decreases s.len(),
{
    if s.len() > 0 && s.last() == c {
        trimmed_end(s.drop_last(), c)
    } else {
        s
    }
}

/// Whether `c` is white space: whether it has the Unicode property `White_Space`.
pub open spec fn white_space(c: char) -> bool {
    let n = c as int;
    ||| 0x9 <= n <= 0xd
    ||| n == 0x20
    ||| n == 0x85
    ||| n == 0xa0
    ||| n == 0x1680
    ||| 0x2000 <= n <= 0x200a
    ||| 0x2028 <= n <= 0x2029
    ||| n == 0x202f
    ||| n == 0x205f
    ||| n == 0x3000
}

/// `s` without the white space at its start.
pub open spec fn trimmed_start(s: Seq<char>) -> Seq<char>
    decreases s.len(),
{
    if s.len() > 0 && white_space(s[0]) {
        trimmed_start(s.skip(1))
    } else {
        s
    }
}

/// `s` without the white space at its end.
pub open spec fn trimmed_tail(s: Seq<char>) -> Seq<char>
    decreases s.len(),
{
    if s.len() > 0 && white_space(s.last()) {
        trimmed_tail(s.drop_last())
    } else {
        s
    }
}

/// `s` without the white space at either end.
pub open spec fn trimmed(s: Seq<char>) -> Seq<char> {
    trimmed_tail(trimmed_start(s))
}

/// The parts of `s` between the characters for which `cut` holds: one more than there are
/// such characters, empty ones among them.
pub open spec fn parts(s: Seq<char>, cut: spec_fn(char) -> bool) -> Seq<Seq<char>>
    decreases s.len(),
{
    if s.len() == 0 {
        seq![Seq::empty()]
    } else {
        let before = parts(s.drop_last(), cut);
        if cut(s.last()) {
            before.push(Seq::empty())
        } else {
            before.drop_last().push(before.last().push(s.last()))
        }
    }
}

/// The parts that are not empty, in order.
pub open spec fn filled(parts: Seq<Seq<char>>) -> Seq<Seq<char>>
    decreases parts.len(),
{
    if parts.len() == 0 {
        Seq::empty()
    } else if parts.last().len() > 0 {
        filled(parts.drop_last()).push(parts.last())
    } else {
        filled(parts.drop_last())
    }
}

pub open spec fn at_newline() -> spec_fn(char) -> bool {
    |c: char| c == '\n'
}

pub open spec fn at_white_space() -> spec_fn(char) -> bool {
    |c: char| white_space(c)
}

/// The lines of `s`, without their newlines.
pub open spec fn lines_of(s: Seq<char>) -> Seq<Seq<char>> {
    parts(s, at_newline())
}

/// The words of `s`: its runs of characters that are not white space.
pub open spec fn words_of(s: Seq<char>) -> Seq<Seq<char>> {
    filled(parts(s, at_white_space()))
}

pub open spec fn ends_with(s: Seq<char>, suffix: Seq<char>) -> bool {
    suffix.len() <= s.len() && s.skip(s.len() - suffix.len()) == suffix
}

/// The code point of `c`, an upper-case ASCII letter taken as its lower case.
pub open spec fn folded(c: char) -> int {
    if 'A' <= c <= 'Z' {
        c as int + 32
    } else {
        c as int
    }
}

/// Whether `a` and `b` are the same but for the case of ASCII letters.
pub open spec fn same_letters(a: Seq<char>, b: Seq<char>) -> bool {
    a.len() == b.len() && forall|i: int|
        0 <= i < a.len() ==> folded(#[trigger] a[i]) == folded(b[i])
}

/// `parts` in order, with `sep` between every two of them.
pub open spec fn joined(parts: Seq<Seq<char>>, sep: Seq<char>) -> Seq<char>
    decreases parts.len(),
{
    if parts.len() == 0 {
        Seq::empty()
    } else if parts.len() == 1 {
        parts[0]
    } else {
        joined(parts.drop_last(), sep) + sep + parts.last()
    }
}

/// A decimal numeral is a run of digits, and denotes its number.
pub proof fn lemma_decimal(n: nat)
    ensures
        decimal(n).len() > 0,
        all_digits(decimal(n)),
        number(decimal(n)) == n,
        natural_value(decimal(n)) == Some(n),
    decreases n,
{
    let s = decimal(n);
    if n < 10 {
        assert(s.drop_last() =~= Seq::<char>::empty());
        assert(number(s.drop_last()) == 0);
    } else {
        lemma_decimal(n / 10);
        assert(s.drop_last() =~= decimal(n / 10));
    }
    assert(is_digit(s[0]));
}

/// Nothing stands before itself.
pub proof fn lemma_precedes_irreflexive(a: Seq<char>)
    ensures
        !precedes(a, a),
    decreases a.len(),
{
    if a.len() > 0 {
        lemma_precedes_irreflexive(a.skip(1));
    }
}

/// Of two different strings one stands before the other.
pub proof fn lemma_precedes_total(a: Seq<char>, b: Seq<char>)
    requires
        a != b,
    ensures
        precedes(a, b) || precedes(b, a),
    decreases a.len(),
{
    if a.len() == 0 || b.len() == 0 {
        if a.len() == b.len() {
            assert(a =~= b);
        }
    } else if a[0] == b[0] {
        if a.skip(1) == b.skip(1) {
            assert(a =~= seq![a[0]] + a.skip(1));
            assert(b =~= seq![b[0]] + b.skip(1));
        }
        lemma_precedes_total(a.skip(1), b.skip(1));
    }
}

/// What stands before a string stands before all that this string stands before.
pub proof fn lemma_precedes_transitive(a: Seq<char>, b: Seq<char>, c: Seq<char>)
    requires
        precedes(a, b),
        precedes(b, c),
    ensures
        precedes(a, c),
    decreases a.len(),
{
    if a.len() > 0 && a[0] == b[0] && b[0] == c[0] {
        lemma_precedes_transitive(a.skip(1), b.skip(1), c.skip(1));
    }
}

// ---------------------------------------------------------------------------
// The operations
// ---------------------------------------------------------------------------

/// `String::push` appends one character.
pub assume_specification[ std::string::String::push ](s: &mut std::string::String, c: char)
    ensures
        final(s)@ == old(s)@.push(c),
;

/// The characters of a string.
pub fn chars_of(s: &str) -> (r: Vec<char>)
    ensures
        r@ == s@,
{
    let mut out: Vec<char> = Vec::new();
    for c in it: s.chars()
        invariant
            out@ == it.seq().take(it.index()),
            it.seq() == s@,
    {
        out.push(c);
    }
    out
}

/// The string of the characters from `from` up to `to`.
pub fn string_of(cs: &Vec<char>, from: usize, to: usize) -> (r: String)
    requires
        from <= to <= cs@.len(),
    ensures
        r@ == cs@.subrange(from as int, to as int),
{
    let mut out = String::new();
    let mut i: usize = from;
    while i < to
        invariant
            from <= i <= to <= cs@.len(),
            out@ == cs@.subrange(from as int, i as int),
        decreases to - i,
    {
        out.push(cs[i]);
        i += 1;
    }
    out
}

/// A string as `{:?}` writes it: in quotes, with escapes.
pub uninterp spec fn debug_text(s: Seq<char>) -> Seq<char>;

/// `format!` with `{:?}` on a string slice: the string in quotes, special characters
/// escaped. The text depends on the string alone; which characters are escaped, and how,
/// is left unsaid.
#[verifier::external_body]
pub(crate) fn quoted(s: &str) -> (r: String)
    ensures
        r@ == debug_text(s@),
{
    format!("{s:?}")
}

/// Whether two strings are the same.
pub fn same(a: &str, b: &str) -> (r: bool)
    ensures
        r == (a@ == b@),
{
    a.to_owned() == b.to_owned()
}

/// `a` and `b` in a row.
pub fn cat2(a: &str, b: &str) -> (r: String)
    ensures
        r@ == a@ + b@,
{
    let mut s = a.to_owned();
    s.append(b);
    s
}

/// `a`, `b` and `c` in a row.
pub fn cat3(a: &str, b: &str, c: &str) -> (r: String)
    ensures
        r@ == a@ + b@ + c@,
{
    let mut s = cat2(a, b);
    s.append(c);
    s
}

/// `a`, `b`, `c` and `d` in a row.
pub fn cat4(a: &str, b: &str, c: &str, d: &str) -> (r: String)
    ensures
        r@ == a@ + b@ + c@ + d@,
{
    let mut s = cat3(a, b, c);
    s.append(d);
    s
}

/// Five strings in a row.
pub fn cat5(a: &str, b: &str, c: &str, d: &str, e: &str) -> (r: String)
    ensures
        r@ == a@ + b@ + c@ + d@ + e@,
{
    let mut s = cat4(a, b, c, d);
    s.append(e);
    s
}

/// The digit of a number below ten.
fn digit_char(d: u64) -> (c: char)
    requires
        d < 10,
    ensures
        c == digit(d as nat),
{
    (48u8 + d as u8) as char
}

/// The decimal numeral of `n`.
pub fn decimal_text(n: u64) -> (r: String)
    ensures
        r@ == decimal(n as nat),
    decreases n,
{
    let mut s = if n < 10 {
        String::new()
    } else {
        decimal_text(n / 10)
    };
    s.push(digit_char(n % 10));
    s
}

/// The octal numeral of `n`.
pub fn octal_text(n: u64) -> (r: String)
    ensures
        r@ == octal(n as nat),
    decreases n,
{
    let mut s = if n < 8 {
        String::new()
    } else {
        octal_text(n / 8)
    };
    s.push(digit_char(n % 8));
    s
}

/// `s` with zeros in front up to `width` characters.
pub fn pad_zeros(s: &str, width: usize) -> (r: String)
    ensures
        r@ == zero_padded(s@, width as nat),
{
    let len: usize = chars_of(s).len();
    let mut out = String::new();
    if len < width {
        let mut i: usize = 0;
        while i < width - len
            invariant
                len < width,
                i <= width - len,
                out@ == Seq::new(i as nat, |k: int| '0'),
            decreases width - len - i,
        {
            out.push('0');
            i += 1;
        }
    }
    out.append(s);
    out
}

/// `s` with spaces behind up to `width` characters.
pub fn pad_spaces(s: &str, width: usize) -> (r: String)
    ensures
        r@ == space_padded(s@, width as nat),
{
    let len: usize = chars_of(s).len();
    let mut out = s.to_owned();
    if len < width {
        let mut i: usize = 0;
        while i < width - len
            invariant
                len < width,
                i <= width - len,
                out@ == s@ + Seq::new(i as nat, |k: int| ' '),
            decreases width - len - i,
        {
            out.push(' ');
            i += 1;
        }
    }
    out
}

/// Taking digits off the end of a run never makes its number larger.
proof fn lemma_number_monotone(s: Seq<char>, k: int)
    requires
        0 <= k <= s.len(),
    ensures
        number(s.take(k)) <= number(s),
    decreases s.len(),
{
    if k == s.len() {
        assert(s.take(k) =~= s);
    } else {
        lemma_number_monotone(s.drop_last(), k);
        assert(s.drop_last().take(k) =~= s.take(k));
    }
}

/// The number of the digits behind position `from`; `None` where there are none,
/// where another character is among them, or where it does not fit.
fn parse_digits(cs: &Vec<char>, from: usize) -> (r: Option<u64>)
    requires
        from <= cs@.len(),
    ensures
        match digits_value(cs@.skip(from as int)) {
            Some(n) if n <= u64::MAX => r == Some(n as u64),
            _ => r is None,
        },
{
    let ghost run = cs@.skip(from as int);
    if from == cs.len() {
        return None;
    }
    let mut v: u64 = 0;
    let mut i: usize = from;
    while i < cs.len()
        invariant
            from <= i <= cs@.len(),
            run == cs@.skip(from as int),
            all_digits(run.take(i - from)),
            v == number(run.take(i - from)),
        decreases cs@.len() - i,
    {
        let c = cs[i];
        proof {
            assert(run[i - from] == c);
            assert(run.take(i + 1 - from).drop_last() =~= run.take(i - from));
        }
        if !('0' <= c && c <= '9') {
            assert(!all_digits(run));
            return None;
        }
        let d: u64 = (c as u32 - 48) as u64;
        let ten: Option<u64> = v.checked_mul(10);
        proof {
            lemma_number_monotone(run, i + 1 - from);
        }
        match ten {
            None => {
                return None;
            },
            Some(t) => match t.checked_add(d) {
                None => {
                    return None;
                },
                Some(n) => {
                    v = n;
                },
            },
        }
        i += 1;
    }
    assert(run.take(i - from) =~= run);
    Some(v)
}

/// Reads a natural number that fits in `max`.
pub fn parse_natural(s: &str, max: u64) -> (r: Option<u64>)
    ensures
        match natural_value(s@) {
            Some(n) if n <= max => r == Some(n as u64),
            _ => r is None,
        },
{
    let cs = chars_of(s);
    let start: usize = if cs.len() > 0 && cs[0] == '+' {
        1
    } else {
        0
    };
    assert(s@.skip(0) =~= s@);
    match parse_digits(&cs, start) {
        Some(n) => if n <= max {
            Some(n)
        } else {
            None
        },
        None => None,
    }
}

/// Reads an integer that fits in `i64`.
pub fn parse_integer(s: &str) -> (r: Option<i64>)
    ensures
        match integer_value(s@) {
            Some(n) if i64::MIN <= n <= i64::MAX => r == Some(n as i64),
            _ => r is None,
        },
{
    let cs = chars_of(s);
    if cs.len() > 0 && cs[0] == '-' {
        match parse_digits(&cs, 1) {
            Some(n) => {
                if n <= 0x7fff_ffff_ffff_ffff {
                    Some(-(n as i64))
                } else if n == 0x8000_0000_0000_0000 {
                    Some(i64::MIN)
                } else {
                    None
                }
            },
            None => None,
        }
    } else {
        match parse_natural(s, 0x7fff_ffff_ffff_ffff) {
            Some(n) => Some(n as i64),
            None => None,
        }
    }
}

/// Whether `a` stands before `b`.
pub fn is_before(a: &str, b: &str) -> (r: bool)
    ensures
        r == precedes(a@, b@),
{
    let x = chars_of(a);
    let y = chars_of(b);
    let mut i: usize = 0;
    assert(a@.skip(0) =~= a@);
    assert(b@.skip(0) =~= b@);
    while i < x.len() && i < y.len()
        invariant
            x@ == a@,
            y@ == b@,
            i <= x@.len(),
            i <= y@.len(),
            precedes(a@, b@) == precedes(a@.skip(i as int), b@.skip(i as int)),
        decreases x@.len() - i,
    {
        if x[i] != y[i] {
            return x[i] < y[i];
        }
        assert(a@.skip(i as int).skip(1) =~= a@.skip(i + 1));
        assert(b@.skip(i as int).skip(1) =~= b@.skip(i + 1));
        i += 1;
    }
    i < y.len()
}

/// Whether `s` starts with `prefix`.
pub fn has_prefix(s: &str, prefix: &str) -> (r: bool)
    ensures
        r == starts_with(s@, prefix@),
{
    let cs = chars_of(s);
    let ps = chars_of(prefix);
    if ps.len() > cs.len() {
        return false;
    }
    let head = string_of(&cs, 0, ps.len());
    assert(cs@.subrange(0, ps@.len() as int) =~= s@.take(prefix@.len() as int));
    same(&head, prefix)
}

/// What follows `prefix` in `s`, where `s` starts with it.
pub fn without_prefix(s: &str, prefix: &str) -> (r: Option<String>)
    ensures
        match r {
            Some(rest) => starts_with(s@, prefix@) && rest@ == s@.skip(prefix@.len() as int),
            None => !starts_with(s@, prefix@),
        },
{
    if has_prefix(s, prefix) {
        let cs = chars_of(s);
        let n: usize = chars_of(prefix).len();
        let rest = string_of(&cs, n, cs.len());
        assert(rest@ =~= s@.skip(prefix@.len() as int));
        Some(rest)
    } else {
        None
    }
}

/// The first position at which `needle` occurs in `s`.
pub fn find(s: &str, needle: &str) -> (r: Option<usize>)
    ensures
        match r {
            Some(i) => first_at(s@, needle@) == Some(i as int) && occurs_at(s@, needle@, i as int),
            None => first_at(s@, needle@) is None,
        },
{
    proof {
        reveal(first_at);
    }
    let cs = chars_of(s);
    let n: usize = chars_of(needle).len();
    if n > cs.len() {
        return None;
    }
    let mut i: usize = 0;
    while i <= cs.len() - n
        invariant
            cs@ == s@,
            n == needle@.len(),
            n <= cs@.len(),
            i <= cs@.len() - n,
            forall|k: int| 0 <= k < i ==> !occurs_at(s@, needle@, k),
        decreases cs@.len() + 1 - i,
    {
        let here = string_of(&cs, i, i + n);
        if same(&here, needle) {
            proof {
                reveal(first_at);
                assert(occurs_at(s@, needle@, i as int));
                let first = choose|i: int|
                    occurs_at(s@, needle@, i) && forall|k: int|
                        0 <= k < i ==> !occurs_at(s@, needle@, k);
                assert(occurs_at(s@, needle@, first) && forall|k: int|
                    0 <= k < first ==> !occurs_at(s@, needle@, k));
            }
            return Some(i);
        }
        if i == cs.len() - n {
            proof {
                reveal(first_at);
                assert(forall|k: int| #[trigger] occurs_at(s@, needle@, k) ==> k <= i);
            }
            return None;
        }
        i += 1;
    }
    None
}

/// Whether `needle` occurs in `s`.
pub fn has(s: &str, needle: &str) -> (r: bool)
    ensures
        r == contains(s@, needle@),
{
    proof {
        reveal(first_at);
    }
    find(s, needle).is_some()
}

/// `s` without the `c`s at its end.
pub fn trim_end(s: &str, c: char) -> (r: String)
    ensures
        r@ == trimmed_end(s@, c),
{
    let cs = chars_of(s);
    let mut n: usize = cs.len();
    assert(s@.take(n as int) =~= s@);
    while n > 0 && cs[n - 1] == c
        invariant
            cs@ == s@,
            n <= cs@.len(),
            trimmed_end(s@, c) == trimmed_end(s@.take(n as int), c),
        decreases n,
    {
        assert(s@.take(n as int).drop_last() =~= s@.take(n - 1));
        n -= 1;
    }
    assert(cs@.subrange(0, n as int) =~= s@.take(n as int));
    string_of(&cs, 0, n)
}

/// Whether `c` is white space.
pub fn is_white_space(c: char) -> (r: bool)
    ensures
        r == white_space(c),
{
    let n: u32 = c as u32;
    (0x9 <= n && n <= 0xd) || n == 0x20 || n == 0x85 || n == 0xa0 || n == 0x1680 || (0x2000 <= n
        && n <= 0x200a) || n == 0x2028 || n == 0x2029 || n == 0x202f || n == 0x205f || n == 0x3000
}

/// `s` without the white space at either end.
pub fn trim(s: &str) -> (r: String)
    ensures
        r@ == trimmed(s@),
{
    let cs = chars_of(s);
    let mut from: usize = 0;
    assert(s@.skip(0) =~= s@);
    while from < cs.len() && is_white_space(cs[from])
        invariant
            cs@ == s@,
            from <= cs@.len(),
            trimmed_start(s@) == trimmed_start(s@.skip(from as int)),
        decreases cs@.len() - from,
    {
        assert(s@.skip(from as int).skip(1) =~= s@.skip(from + 1));
        from += 1;
    }
    let ghost body = s@.skip(from as int);
    assert(from < cs@.len() ==> body[0] == cs@[from as int]);
    let mut to: usize = cs.len();
    assert(body.take(to - from) =~= body);
    while to > from && is_white_space(cs[to - 1])
        invariant
            cs@ == s@,
            from <= to <= cs@.len(),
            body == s@.skip(from as int),
            trimmed_tail(body) == trimmed_tail(body.take(to - from)),
        decreases to,
    {
        assert(body.take(to - from).drop_last() =~= body.take(to - 1 - from));
        to -= 1;
    }
    assert(cs@.subrange(from as int, to as int) =~= body.take(to - from));
    string_of(&cs, from, to)
}

/// The lines of `s`.
pub fn lines(s: &str) -> (r: Vec<String>)
    ensures
        r.deep_view() == lines_of(s@),
        r@.len() > 0,
{
    let cs = chars_of(s);
    let mut done: Vec<String> = Vec::new();
    let mut cur = String::new();
    assert(done.deep_view().push(cur@) =~= parts(s@.take(0), at_newline()));
    for i in 0..cs.len()
        invariant
            cs@ == s@,
            done.deep_view().push(cur@) == parts(s@.take(i as int), at_newline()),
    {
        let c = cs[i];
        let ghost before = parts(s@.take(i as int), at_newline());
        proof {
            assert(s@.take(i + 1).drop_last() =~= s@.take(i as int));
            assert(s@.take(i + 1).last() == c);
            assert(before.last() == cur@);
            assert(before.drop_last() =~= done.deep_view());
        }
        if c == '\n' {
            let ghost finished = done.deep_view();
            done.push(cur);
            cur = String::new();
            assert(done.deep_view() =~= before);
        } else {
            cur.push(c);
        }
        assert(done.deep_view().push(cur@) =~= parts(s@.take(i + 1), at_newline()));
    }
    assert(s@.take(s@.len() as int) =~= s@);
    let ghost finished = done.deep_view();
    done.push(cur);
    assert(done.deep_view() =~= finished.push(cur@));
    done
}

/// The words of `s`.
pub fn words(s: &str) -> (r: Vec<String>)
    ensures
        r.deep_view() == words_of(s@),
{
    let cs = chars_of(s);
    let mut done: Vec<String> = Vec::new();
    let mut cur = String::new();
    let ghost mut closed: Seq<Seq<char>> = Seq::empty();
    proof {
        assert(closed.push(cur@) =~= parts(s@.take(0), at_white_space()));
        assert(done.deep_view() =~= filled(closed));
    }
    for i in 0..cs.len()
        invariant
            cs@ == s@,
            closed.push(cur@) == parts(s@.take(i as int), at_white_space()),
            done.deep_view() == filled(closed),
    {
        let c = cs[i];
        let ghost before = parts(s@.take(i as int), at_white_space());
        proof {
            assert(s@.take(i + 1).drop_last() =~= s@.take(i as int));
            assert(s@.take(i + 1).last() == c);
            assert(before.last() == cur@);
            assert(before.drop_last() =~= closed);
        }
        if is_white_space(c) {
            let ghost so_far = done.deep_view();
            let ghost word = cur@;
            if !cur.as_str().is_empty() {
                done.push(cur);
                assert(done.deep_view() =~= so_far.push(word));
            }
            cur = String::new();
            proof {
                assert(before.drop_last() =~= closed);
                closed = before;
            }
        } else {
            cur.push(c);
        }
        assert(closed.push(cur@) =~= parts(s@.take(i + 1), at_white_space()));
    }
    assert(s@.take(s@.len() as int) =~= s@);
    let ghost all = parts(s@, at_white_space());
    let ghost so_far = done.deep_view();
    let ghost word = cur@;
    assert(all.drop_last() =~= closed);
    if !cur.as_str().is_empty() {
        done.push(cur);
        assert(done.deep_view() =~= so_far.push(word));
    }
    done
}

/// Whether `s` ends with `suffix`.
pub fn has_suffix(s: &str, suffix: &str) -> (r: bool)
    ensures
        r == ends_with(s@, suffix@),
{
    let cs = chars_of(s);
    let n: usize = chars_of(suffix).len();
    if n > cs.len() {
        return false;
    }
    let tail = string_of(&cs, cs.len() - n, cs.len());
    assert(tail@ =~= s@.skip(s@.len() - suffix@.len()));
    same(&tail, suffix)
}

/// The first `n` characters of `s`, or all of them.
pub fn shortened(s: &str, n: usize) -> (r: String)
    ensures
        r@ == (if s@.len() <= n {
            s@
        } else {
            s@.take(n as int)
        }),
{
    let cs = chars_of(s);
    let to: usize = if cs.len() <= n {
        cs.len()
    } else {
        n
    };
    let r = string_of(&cs, 0, to);
    assert(r@ =~= s@.take(to as int));
    assert(s@.take(s@.len() as int) =~= s@);
    r
}

fn fold_char(c: char) -> (r: u32)
    ensures
        r == folded(c),
{
    if 'A' <= c && c <= 'Z' {
        c as u32 + 32
    } else {
        c as u32
    }
}

/// Whether two strings are the same but for the case of ASCII letters.
pub fn same_ignoring_case(a: &str, b: &str) -> (r: bool)
    ensures
        r == same_letters(a@, b@),
{
    let x = chars_of(a);
    let y = chars_of(b);
    if x.len() != y.len() {
        return false;
    }
    let mut i: usize = 0;
    while i < x.len()
        invariant
            x@ == a@,
            y@ == b@,
            x@.len() == y@.len(),
            i <= x@.len(),
            forall|k: int| 0 <= k < i ==> folded(#[trigger] a@[k]) == folded(b@[k]),
        decreases x@.len() - i,
    {
        if fold_char(x[i]) != fold_char(y[i]) {
            assert(folded(a@[i as int]) != folded(b@[i as int]));
            return false;
        }
        i += 1;
    }
    true
}

/// Joins `parts` with `sep` between them.
pub fn join(parts: &Vec<String>, sep: &str) -> (r: String)
    ensures
        r@ == joined(parts.deep_view(), sep@),
{
    let mut out = String::new();
    let mut i: usize = 0;
    let ghost all = parts.deep_view();
    while i < parts.len()
        invariant
            all == parts.deep_view(),
            i <= parts@.len(),
            out@ == joined(all.take(i as int), sep@),
        decreases parts@.len() - i,
    {
        if i > 0 {
            out.append(sep);
        }
        out.append(&parts[i]);
        proof {
            assert(all.take(i + 1).drop_last() =~= all.take(i as int));
            assert(all.take(i + 1).last() == parts@[i as int]@);
            if i == 0 {
                assert(out@ =~= all.take(1)[0]);
            }
        }
        i += 1;
    }
    assert(all.take(i as int) =~= all);
    out
}

/// Copies a list of strings.
pub fn copy_strings(v: &Vec<String>) -> (r: Vec<String>)
    ensures
        r.deep_view() == v.deep_view(),
        r@ == v@,
{
    let mut out: Vec<String> = Vec::new();
    for i in 0..v.len()
        invariant
            out@ == v@.take(i as int),
    {
        out.push(v[i].clone());
        assert(out@ =~= v@.take(i + 1));
    }
    assert(v@.take(v@.len() as int) =~= v@);
    out
}

/// Copies a list of pairs of strings.
pub fn copy_pairs(v: &Vec<(String, String)>) -> (r: Vec<(String, String)>)
    ensures
        r.deep_view() == v.deep_view(),
        r@ == v@,
{
    let mut out: Vec<(String, String)> = Vec::new();
    for i in 0..v.len()
        invariant
            out@ == v@.take(i as int),
    {
        out.push((v[i].0.clone(), v[i].1.clone()));
        assert(out@ =~= v@.take(i + 1));
    }
    assert(v@.take(v@.len() as int) =~= v@);
    out
}

// ---------------------------------------------------------------------------
// What holds of every string
// ---------------------------------------------------------------------------

/// The number that digits denote in base `base`: each digit times the power of its place.
pub open spec fn value_in_base(s: Seq<char>, base: nat) -> nat
    decreases s.len(),
{
    if s.len() == 0 {
        0
    } else {
        value_in_base(s.drop_last(), base) * base + ((s.last() as int - '0' as int) as nat)
    }
}

/// A numeral denotes its number, in its base, with the digits of that base and without a
/// zero in front.
pub proof fn law_numerals_denote_their_number(n: nat)
    ensures
        value_in_base(decimal(n), 10) == n,
        decimal(n).len() > 0,
        forall|i: int| 0 <= i < decimal(n).len() ==> '0' <= #[trigger] decimal(n)[i] <= '9',
        n > 0 ==> decimal(n)[0] != '0',
        value_in_base(octal(n), 8) == n,
        octal(n).len() > 0,
        forall|i: int| 0 <= i < octal(n).len() ==> '0' <= #[trigger] octal(n)[i] <= '7',
        n > 0 ==> octal(n)[0] != '0',
    decreases n,
{
    reveal_with_fuel(value_in_base, 2);
    if n >= 10 {
        law_numerals_denote_their_number(n / 10);
        assert(decimal(n).drop_last() =~= decimal(n / 10));
    } else {
        assert(decimal(n).drop_last() =~= Seq::<char>::empty());
    }
    if n >= 8 {
        law_numerals_denote_their_number(n / 8);
        assert(octal(n).drop_last() =~= octal(n / 8));
    } else {
        assert(octal(n).drop_last() =~= Seq::<char>::empty());
    }
}

proof fn lemma_number_is_value(s: Seq<char>)
    requires
        forall|i: int| 0 <= i < s.len() ==> '0' <= #[trigger] s[i] <= '9',
    ensures
        number(s) == value_in_base(s, 10),
    decreases s.len(),
{
    if s.len() > 0 {
        let init = s.drop_last();
        assert forall|i: int| 0 <= i < init.len() implies '0' <= #[trigger] init[i] <= '9' by {
            assert(init[i] == s[i]);
        }
        lemma_number_is_value(init);
    }
}

/// Whether a string is made of decimal digits, one at least.
pub open spec fn is_digit_run(s: Seq<char>) -> bool {
    s.len() > 0 && forall|i: int| 0 <= i < s.len() ==> '0' <= #[trigger] s[i] <= '9'
}

proof fn lemma_digit_run(s: Seq<char>)
    ensures
        digits_value(s) is Some <==> is_digit_run(s),
        is_digit_run(s) ==> digits_value(s) == Some(value_in_base(s, 10)),
{
    if all_digits(s) {
        assert forall|i: int| 0 <= i < s.len() implies '0' <= #[trigger] s[i] <= '9' by {
            assert(is_digit(s[i]));
        }
    }
    if is_digit_run(s) {
        assert forall|i: int| 0 <= i < s.len() implies is_digit(#[trigger] s[i]) by {}
        lemma_number_is_value(s);
    }
}

/// What reads as a natural number is exactly a run of decimal digits, with a `+` in front or
/// not; what reads as an integer may have a `-` there instead. Either denotes the value of
/// its digits.
pub proof fn law_numbers_are_their_digits(s: Seq<char>)
    ensures
        is_digit_run(s) ==> natural_value(s) == Some(value_in_base(s, 10)) && integer_value(s)
            == Some(value_in_base(s, 10) as int),
        is_digit_run(s) ==> natural_value(seq!['+'] + s) == Some(value_in_base(s, 10))
            && integer_value(seq!['+'] + s) == Some(value_in_base(s, 10) as int),
        is_digit_run(s) ==> natural_value(seq!['-'] + s) is None && integer_value(seq!['-'] + s)
            == Some(-(value_in_base(s, 10) as int)),
        natural_value(s) is Some ==> is_digit_run(s) || (s[0] == '+' && is_digit_run(s.skip(1))),
        integer_value(s) is Some ==> is_digit_run(s) || ((s[0] == '+' || s[0] == '-')
            && is_digit_run(s.skip(1))),
{
    lemma_digit_run(s);
    lemma_digit_run(s.skip(1));
    let plus = seq!['+'] + s;
    let minus = seq!['-'] + s;
    assert(plus.skip(1) =~= s);
    assert(minus.skip(1) =~= s);
    assert(plus[0] == '+' && minus[0] == '-');
    lemma_digit_run(minus);
    if is_digit_run(s) {
        assert('0' <= s[0] <= '9');
    }
    if is_digit_run(minus) {
        assert('0' <= minus[0] <= '9');
    }
}

/// One string stands before another exactly where it is a true beginning of it, or has the
/// smaller character at the first place where they differ.
pub proof fn law_order_is_lexicographic(a: Seq<char>, b: Seq<char>)
    ensures
        precedes(a, b) <==> exists|k: int|
            {
                &&& 0 <= k <= a.len()
                &&& k < b.len()
                &&& #[trigger] a.take(k) == b.take(k)
                &&& k < a.len() ==> a[k] < b[k]
            },
    decreases a.len(),
{
    if b.len() > 0 {
        if a.len() == 0 {
            assert(a.take(0) =~= b.take(0));
        } else if a[0] != b[0] {
            assert(a.take(0) =~= b.take(0));
            if exists|k: int|
                0 <= k <= a.len() && k < b.len() && #[trigger] a.take(k) == b.take(k) && (k
                    < a.len() ==> a[k] < b[k]) {
                let k = choose|k: int|
                    0 <= k <= a.len() && k < b.len() && #[trigger] a.take(k) == b.take(k) && (k
                        < a.len() ==> a[k] < b[k]);
                if k > 0 {
                    assert(a.take(k)[0] == a[0] && b.take(k)[0] == b[0]);
                }
            }
        } else {
            let (x, y) = (a.skip(1), b.skip(1));
            law_order_is_lexicographic(x, y);
            if precedes(x, y) {
                let k = choose|k: int|
                    0 <= k <= x.len() && k < y.len() && #[trigger] x.take(k) == y.take(k) && (k
                        < x.len() ==> x[k] < y[k]);
                assert(a.take(k + 1) =~= seq![a[0]] + x.take(k));
                assert(b.take(k + 1) =~= seq![b[0]] + y.take(k));
            }
            if exists|k: int|
                0 <= k <= a.len() && k < b.len() && #[trigger] a.take(k) == b.take(k) && (k
                    < a.len() ==> a[k] < b[k]) {
                let k = choose|k: int|
                    0 <= k <= a.len() && k < b.len() && #[trigger] a.take(k) == b.take(k) && (k
                        < a.len() ==> a[k] < b[k]);
                assert(k > 0);
                assert(x.take(k - 1) =~= a.take(k).skip(1));
                assert(y.take(k - 1) =~= b.take(k).skip(1));
            }
        }
    }
}

/// Padding fills up to the width, with zeros in front or with spaces behind, and keeps what
/// is as wide already.
pub proof fn law_padding_fills_up(s: Seq<char>, width: nat, i: int)
    ensures
        zero_padded(s, width).len() == (if s.len() < width {
            width
        } else {
            s.len()
        }),
        space_padded(s, width).len() == zero_padded(s, width).len(),
        zero_padded(s, width).skip(zero_padded(s, width).len() - s.len()) == s,
        space_padded(s, width).take(s.len() as int) == s,
        0 <= i < zero_padded(s, width).len() - s.len() ==> zero_padded(s, width)[i] == '0',
        s.len() <= i < space_padded(s, width).len() ==> space_padded(s, width)[i] == ' ',
{
    assert(zero_padded(s, width).skip(zero_padded(s, width).len() - s.len()) =~= s);
    assert(space_padded(s, width).take(s.len() as int) =~= s);
}

/// A string starts with what something follows, ends with what something precedes, and
/// contains what stands between two parts of it.
pub proof fn law_parts_of_a_string(a: Seq<char>, needle: Seq<char>, b: Seq<char>)
    ensures
        starts_with(needle + b, needle),
        ends_with(a + needle, needle),
        contains(a + needle + b, needle),
{
    assert((needle + b).take(needle.len() as int) =~= needle);
    assert((a + needle).skip(a.len() as int) =~= needle);
    let s = a + needle + b;
    assert(s.subrange(a.len() as int, a.len() as int + needle.len()) =~= needle);
    assert(occurs_at(s, needle, a.len() as int));
}

/// What a string starts with is followed by the rest of it, what it ends with is preceded by
/// it, and what it contains first occurs between two parts, with no earlier occurrence.
pub proof fn law_strings_take_apart(s: Seq<char>, needle: Seq<char>)
    ensures
        starts_with(s, needle) ==> s == needle + s.skip(needle.len() as int),
        ends_with(s, needle) ==> s == s.take(s.len() - needle.len()) + needle,
        first_at(s, needle) is Some <==> contains(s, needle),
        first_at(s, needle) matches Some(i) ==> {
            &&& 0 <= i
            &&& i + needle.len() <= s.len()
            &&& s == s.take(i) + needle + s.skip(i + needle.len())
            &&& forall|k: int|
                0 <= k < i ==> #[trigger] s.subrange(k, k + needle.len()) != needle
        },
{
    reveal(first_at);
    if starts_with(s, needle) {
        assert(s =~= needle + s.skip(needle.len() as int));
    }
    if ends_with(s, needle) {
        assert(s =~= s.take(s.len() - needle.len()) + needle);
    }
    if contains(s, needle) {
        let some = choose|i: int| occurs_at(s, needle, i);
        lemma_first_exists(s, needle, some);
        let i = first_at(s, needle)->0;
        assert(occurs_at(s, needle, i));
        assert(s =~= s.take(i) + s.subrange(i, i + needle.len()) + s.skip(i + needle.len()));
        assert forall|k: int| 0 <= k < i implies #[trigger] s.subrange(k, k + needle.len())
            != needle by {
            assert(!occurs_at(s, needle, k));
        }
    }
}

proof fn lemma_first_exists(s: Seq<char>, needle: Seq<char>, i: int)
    requires
        occurs_at(s, needle, i),
    ensures
        exists|f: int|
            occurs_at(s, needle, f) && forall|k: int| 0 <= k < f ==> !occurs_at(s, needle, k),
    decreases i,
{
    if exists|k: int| 0 <= k < i && occurs_at(s, needle, k) {
        let k = choose|k: int| 0 <= k < i && occurs_at(s, needle, k);
        lemma_first_exists(s, needle, k);
    } else {
        assert(occurs_at(s, needle, i) && forall|k: int|
            0 <= k < i ==> !occurs_at(s, needle, k));
    }
}

/// What is trimmed off the end of a string is that character and nothing else, and none of
/// it is left there.
pub proof fn law_trimming_takes_all_at_the_end(s: Seq<char>, c: char)
    ensures
        trimmed_end(s, c).len() <= s.len(),
        s.take(trimmed_end(s, c).len() as int) == trimmed_end(s, c),
        forall|i: int| trimmed_end(s, c).len() <= i < s.len() ==> #[trigger] s[i] == c,
        trimmed_end(s, c).len() > 0 ==> trimmed_end(s, c).last() != c,
    decreases s.len(),
{
    if s.len() > 0 && s.last() == c {
        let init = s.drop_last();
        law_trimming_takes_all_at_the_end(init, c);
        let n = trimmed_end(s, c).len() as int;
        assert(s.take(n) =~= init.take(n));
        assert forall|i: int| n <= i < s.len() implies #[trigger] s[i] == c by {
            if i < init.len() {
                assert(init[i] == s[i]);
            }
        }
    } else {
        assert(s.take(s.len() as int) =~= s);
    }
}

proof fn lemma_trimmed_start(s: Seq<char>)
    ensures
        trimmed_start(s).len() <= s.len(),
        s.skip(s.len() - trimmed_start(s).len()) == trimmed_start(s),
        forall|i: int|
            0 <= i < s.len() - trimmed_start(s).len() ==> white_space(#[trigger] s[i]),
        trimmed_start(s).len() > 0 ==> !white_space(trimmed_start(s)[0]),
    decreases s.len(),
{
    if s.len() > 0 && white_space(s[0]) {
        let rest = s.skip(1);
        lemma_trimmed_start(rest);
        let n = s.len() - trimmed_start(s).len();
        assert(s.skip(n) =~= rest.skip(n - 1));
        assert forall|i: int| 0 <= i < n implies white_space(#[trigger] s[i]) by {
            if i > 0 {
                assert(rest[i - 1] == s[i]);
            }
        }
    } else {
        assert(s.skip(0) =~= s);
    }
}

proof fn lemma_trimmed_tail(s: Seq<char>)
    ensures
        trimmed_tail(s).len() <= s.len(),
        s.take(trimmed_tail(s).len() as int) == trimmed_tail(s),
        forall|i: int| trimmed_tail(s).len() <= i < s.len() ==> white_space(#[trigger] s[i]),
        trimmed_tail(s).len() > 0 ==> !white_space(trimmed_tail(s).last()),
    decreases s.len(),
{
    if s.len() > 0 && white_space(s.last()) {
        let init = s.drop_last();
        lemma_trimmed_tail(init);
        let n = trimmed_tail(s).len() as int;
        assert(s.take(n) =~= init.take(n));
        assert forall|i: int| n <= i < s.len() implies white_space(#[trigger] s[i]) by {
            if i < init.len() {
                assert(init[i] == s[i]);
            }
        }
    } else {
        assert(s.take(s.len() as int) =~= s);
    }
}

/// A trimmed string is the string between the white space at its two ends: only white space
/// is taken off, and none is left at either end.
pub proof fn law_trimming_takes_white_space_only(s: Seq<char>)
    ensures
        trimmed(s).len() > 0 ==> !white_space(trimmed(s)[0]) && !white_space(trimmed(s).last()),
        exists|from: int, to: int|
            {
                &&& 0 <= from <= to <= s.len()
                &&& #[trigger] s.subrange(from, to) == trimmed(s)
                &&& forall|i: int|
                    0 <= i < from || to <= i < s.len() ==> white_space(#[trigger] s[i])
            },
{
    let body = trimmed_start(s);
    lemma_trimmed_start(s);
    lemma_trimmed_tail(body);
    let from = s.len() - body.len();
    let to = from + trimmed(s).len();
    assert(s.subrange(from, to) =~= body.take(trimmed(s).len() as int));
    assert forall|i: int| 0 <= i < from || to <= i < s.len() implies white_space(
        #[trigger] s[i],
    ) by {
        if to <= i {
            assert(body[i - from] == s[i]);
        }
    }
    if trimmed(s).len() > 0 {
        assert(trimmed(s)[0] == body[0]);
    }
}

proof fn lemma_parts_cut(a: Seq<char>, c: char, b: Seq<char>, cut: spec_fn(char) -> bool)
    requires
        cut(c),
    ensures
        parts(a, cut).len() > 0,
        parts(a + seq![c] + b, cut) == parts(a, cut) + parts(b, cut),
    decreases a.len() + b.len(),
{
    let whole = a + seq![c] + b;
    if a.len() > 0 {
        lemma_parts_cut(a.drop_last(), c, Seq::empty(), cut);
    }
    if b.len() == 0 {
        assert(whole.drop_last() =~= a);
        assert(whole.last() == c);
        assert(parts(whole, cut) =~= parts(a, cut) + parts(b, cut));
    } else {
        lemma_parts_cut(a, c, b.drop_last(), cut);
        lemma_parts_cut(b.drop_last(), c, Seq::empty(), cut);
        assert(whole.drop_last() =~= a + seq![c] + b.drop_last());
        assert(whole.last() == b.last());
        assert(parts(whole, cut) =~= parts(a, cut) + parts(b, cut));
    }
}

proof fn lemma_uncut(a: Seq<char>, cut: spec_fn(char) -> bool)
    requires
        forall|i: int| 0 <= i < a.len() ==> !cut(#[trigger] a[i]),
    ensures
        parts(a, cut) == seq![a],
    decreases a.len(),
{
    if a.len() > 0 {
        let init = a.drop_last();
        assert forall|i: int| 0 <= i < init.len() implies !cut(#[trigger] init[i]) by {
            assert(init[i] == a[i]);
        }
        lemma_uncut(init, cut);
        assert(a[a.len() - 1] == a.last());
        assert(parts(a, cut) =~= seq![a]) by {
            assert(init.push(a.last()) =~= a);
        }
    } else {
        assert(a =~= Seq::empty());
    }
}

/// A newline ends a line and begins another: the lines of two texts with one between them
/// are those of the first, then those of the second; a text without one is a single line.
pub proof fn law_newlines_part_lines(a: Seq<char>, b: Seq<char>)
    ensures
        lines_of(a + seq!['\n'] + b) == lines_of(a) + lines_of(b),
        !a.contains('\n') ==> lines_of(a) == seq![a],
{
    lemma_parts_cut(a, '\n', b, at_newline());
    if !a.contains('\n') {
        assert forall|i: int| 0 <= i < a.len() implies !at_newline()(#[trigger] a[i]) by {
            if a[i] == '\n' {
                assert(a.contains('\n'));
            }
        }
        lemma_uncut(a, at_newline());
    }
}

proof fn lemma_filled_sum(x: Seq<Seq<char>>, y: Seq<Seq<char>>)
    ensures
        filled(x + y) == filled(x) + filled(y),
    decreases y.len(),
{
    if y.len() == 0 {
        assert(x + y =~= x);
        assert(filled(x) + filled(y) =~= filled(x));
    } else {
        lemma_filled_sum(x, y.drop_last());
        assert((x + y).drop_last() =~= x + y.drop_last());
        assert((x + y).last() == y.last());
        assert(filled(x + y) =~= filled(x) + filled(y));
    }
}

/// White space parts words and belongs to none: the words of two texts with a white space
/// between them are those of the first, then those of the second; a text without any is one
/// word, or none where it is empty.
pub proof fn law_white_space_parts_words(a: Seq<char>, c: char, b: Seq<char>)
    requires
        white_space(c),
    ensures
        words_of(a + seq![c] + b) == words_of(a) + words_of(b),
        (forall|i: int| 0 <= i < a.len() ==> !white_space(#[trigger] a[i])) ==> words_of(a) == (
        if a.len() == 0 {
            Seq::<Seq<char>>::empty()
        } else {
            seq![a]
        }),
{
    lemma_parts_cut(a, c, b, at_white_space());
    lemma_filled_sum(parts(a, at_white_space()), parts(b, at_white_space()));
    if forall|i: int| 0 <= i < a.len() ==> !white_space(#[trigger] a[i]) {
        assert forall|i: int| 0 <= i < a.len() implies !at_white_space()(#[trigger] a[i]) by {
            assert(!white_space(a[i]));
        }
        lemma_uncut(a, at_white_space());
        reveal_with_fuel(filled, 2);
        assert(seq![a].drop_last() =~= Seq::<Seq<char>>::empty());
        assert(words_of(a) =~= (if a.len() == 0 {
            Seq::<Seq<char>>::empty()
        } else {
            seq![a]
        }));
    }
}

/// Two strings are the same but for case exactly where, place by place, they hold one
/// character, or an ASCII letter in its two cases.
pub proof fn law_case_is_that_of_ascii_letters(a: Seq<char>, b: Seq<char>)
    ensures
        same_letters(a, b) <==> a.len() == b.len() && forall|i: int|
            0 <= i < a.len() ==> {
                ||| #[trigger] a[i] == b[i]
                ||| 'A' <= a[i] <= 'Z' && b[i] as int == a[i] as int + 32
                ||| 'A' <= b[i] <= 'Z' && a[i] as int == b[i] as int + 32
            },
{
    if a.len() == b.len() {
        assert forall|i: int| 0 <= i < a.len() implies (folded(#[trigger] a[i]) == folded(b[i])) == (
        a[i] == b[i] || ('A' <= a[i] <= 'Z' && b[i] as int == a[i] as int + 32) || ('A' <= b[i]
            <= 'Z' && a[i] as int == b[i] as int + 32)) by {
            if folded(a[i]) == folded(b[i]) && a[i] as int == b[i] as int {
                assert(a[i] == b[i]);
            }
        }
    }
}

/// Joining two lists puts one separator between what they join to; a single part is itself,
/// and no parts join to nothing.
pub proof fn law_joining_puts_one_separator_between(
    x: Seq<Seq<char>>,
    y: Seq<Seq<char>>,
    sep: Seq<char>,
    one: Seq<char>,
)
    ensures
        x.len() > 0 && y.len() > 0 ==> joined(x + y, sep) == joined(x, sep) + sep + joined(
            y,
            sep,
        ),
        joined(seq![one], sep) == one,
        joined(Seq::empty(), sep) == Seq::<char>::empty(),
    decreases y.len(),
{
    if x.len() > 0 && y.len() > 0 {
        let all = x + y;
        assert(all.drop_last() =~= x + y.drop_last());
        assert(all.last() == y.last());
        if y.len() == 1 {
            assert(all.drop_last() =~= x);
        } else {
            law_joining_puts_one_separator_between(x, y.drop_last(), sep, one);
            assert(joined(all, sep) =~= joined(x, sep) + sep + joined(y, sep));
        }
    }
}

} // verus!
