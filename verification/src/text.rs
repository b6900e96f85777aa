//! Character level text handling shared by the rest of the library: the
//! whitespace, line and case rules the process list is read with, decimal
//! numbers in both directions, and the UTF-16 form the shell APIs take.
use vstd::prelude::*;

verus! {

broadcast use vstd::string::group_string_axioms;

/// Appends one character to a string (`String::push`).
#[verifier::external_body]
pub(crate) fn push_char(s: &mut String, c: char)
    ensures
        final(s)@ == old(s)@.push(c),
{
    s.push(c);
}

// ---------------------------------------------------------------------------
// Characters
// ---------------------------------------------------------------------------
/// The characters with the Unicode `White_Space` property, which is what
/// `char::is_whitespace` and `str::trim` go by.
pub open spec fn is_space(c: char) -> bool {
    let v = c as u32;
    ||| 0x09 <= v <= 0x0D
    ||| v == 0x20
    ||| v == 0x85
    ||| v == 0xA0
    ||| v == 0x1680
    ||| 0x2000 <= v <= 0x200A
    ||| v == 0x2028
    ||| v == 0x2029
    ||| v == 0x202F
    ||| v == 0x205F
    ||| v == 0x3000
}

/// Whether a character is Unicode white space.
pub fn is_space_char(c: char) -> (b: bool)
    ensures
        b == is_space(c),
{
    let v = c as u32;
    (0x09 <= v && v <= 0x0D) || v == 0x20 || v == 0x85 || v == 0xA0 || v == 0x1680 || (0x2000
        <= v && v <= 0x200A) || v == 0x2028 || v == 0x2029 || v == 0x202F || v == 0x205F || v
        == 0x3000
}

/// ASCII lower casing of one character; everything else is unchanged.
pub open spec fn lower_char(c: char) -> char {
    if 'A' <= c && c <= 'Z' {
        ((c as u32) + 32) as char
    } else {
        c
    }
}

/// ASCII lower casing of a whole sequence.
pub open spec fn lower(s: Seq<char>) -> Seq<char> {
    s.map_values(|c: char| lower_char(c))
}

/// `char::to_ascii_lowercase`.
pub fn lower_char_exec(c: char) -> (r: char)
    ensures
        r == lower_char(c),
{
    if 'A' <= c && c <= 'Z' {
        let b: u8 = c as u8;
        assert(b == c as u32);
        (b + 32) as char
    } else {
        c
    }
}

/// Whether the text holds no upper case ASCII letter.
pub open spec fn is_lower(s: Seq<char>) -> bool {
    forall|i: int| 0 <= i < s.len() ==> !('A' <= #[trigger] s[i] && s[i] <= 'Z')
}

/// Lower casing gives text with no upper case ASCII letter, and lower cased
/// text is left as it is.
pub proof fn lemma_lower_is_lower(s: Seq<char>)
    ensures
        is_lower(lower(s)),
        lower(lower(s)) == lower(s),
        lower(s).len() == s.len(),
{
    assert(lower(lower(s)) =~= lower(s));
}

/// Whether two texts are equal when ASCII letters are compared without
/// regard to case.
pub open spec fn eq_ignore_ascii_case(a: Seq<char>, b: Seq<char>) -> bool {
    a.len() == b.len() && forall|i: int| 0 <= i < a.len() ==> lower_char(#[trigger] a[i])
        == lower_char(b[i])
}

/// Comparing lower cased texts is comparing without regard to ASCII case,
/// which is how a listed program is matched against a running executable.
pub proof fn lemma_lower_eq_ignores_case(a: Seq<char>, b: Seq<char>)
    ensures
        (lower(a) == lower(b)) <==> eq_ignore_ascii_case(a, b),
{
    if eq_ignore_ascii_case(a, b) {
        assert(lower(a) =~= lower(b));
    }
    if lower(a) == lower(b) {
        assert(a.len() == lower(a).len() && b.len() == lower(b).len());
        assert forall|i: int| 0 <= i < a.len() implies lower_char(#[trigger] a[i]) == lower_char(
            b[i],
        ) by {
            assert(lower(a)[i] == lower(b)[i]);
            assert(lower(a)[i] == lower_char(a[i]));
            assert(lower(b)[i] == lower_char(b[i]));
        }
    }
}

// ---------------------------------------------------------------------------
// Trimming
// ---------------------------------------------------------------------------
/// The text with leading white space removed.
pub open spec fn trim_start(s: Seq<char>) -> Seq<char>
    decreases s.len(),
{
    if s.len() > 0 && is_space(s[0]) {
        trim_start(s.drop_first())
    } else {
        s
    }
}

/// The text with trailing white space removed.
pub open spec fn trim_end(s: Seq<char>) -> Seq<char>
    decreases s.len(),
{
    if s.len() > 0 && is_space(s.last()) {
        trim_end(s.drop_last())
    } else {
        s
    }
}

/// `str::trim`: leading and trailing white space removed.
pub open spec fn trim(s: Seq<char>) -> Seq<char> {
    trim_end(trim_start(s))
}

/// The number of leading white space characters of `s`.
spec fn space_prefix(s: Seq<char>) -> nat
    decreases s.len(),
{
    if s.len() > 0 && is_space(s[0]) {
        1 + space_prefix(s.drop_first())
    } else {
        0
    }
}

proof fn lemma_trim_start_skip(s: Seq<char>)
    ensures
        space_prefix(s) <= s.len(),
        trim_start(s) == s.skip(space_prefix(s) as int),
        forall|i: int| 0 <= i < space_prefix(s) ==> is_space(#[trigger] s[i]),
        space_prefix(s) < s.len() ==> !is_space(s[space_prefix(s) as int]),
    decreases s.len(),
{
    if s.len() > 0 && is_space(s[0]) {
        lemma_trim_start_skip(s.drop_first());
        assert(s.drop_first().skip(space_prefix(s.drop_first()) as int) =~= s.skip(
            space_prefix(s) as int,
        ));
        assert forall|i: int| 0 <= i < space_prefix(s) implies is_space(#[trigger] s[i]) by {
            if i > 0 {
                assert(s[i] == s.drop_first()[i - 1]);
            }
        }
        if space_prefix(s) < s.len() {
            assert(s[space_prefix(s) as int] == s.drop_first()[space_prefix(s.drop_first()) as int]);
        }
    } else {
        assert(s.skip(0) =~= s);
    }
}

/// The number of trailing white space characters of `s`.
spec fn space_suffix(s: Seq<char>) -> nat
    decreases s.len(),
{
    if s.len() > 0 && is_space(s.last()) {
        1 + space_suffix(s.drop_last())
    } else {
        0
    }
}

proof fn lemma_trim_end_take(s: Seq<char>)
    ensures
        space_suffix(s) <= s.len(),
        trim_end(s) == s.take(s.len() - space_suffix(s)),
        forall|i: int| s.len() - space_suffix(s) <= i < s.len() ==> is_space(#[trigger] s[i]),
        space_suffix(s) < s.len() ==> !is_space(s[s.len() - space_suffix(s) - 1]),
    decreases s.len(),
{
    if s.len() > 0 && is_space(s.last()) {
        lemma_trim_end_take(s.drop_last());
        assert(s.drop_last().take(s.drop_last().len() - space_suffix(s.drop_last())) =~= s.take(
            s.len() - space_suffix(s),
        ));
        assert forall|i: int| s.len() - space_suffix(s) <= i < s.len() implies is_space(
            #[trigger] s[i],
        ) by {
            if i < s.len() - 1 {
                assert(s[i] == s.drop_last()[i]);
            }
        }
        if space_suffix(s) < s.len() {
            assert(s[s.len() - space_suffix(s) - 1] == s.drop_last()[s.drop_last().len()
                - space_suffix(s.drop_last()) - 1]);
        }
    } else {
        assert(s.take(s.len() as int) =~= s);
    }
}

/// A trimmed text starts and ends with something other than white space.
pub proof fn lemma_trim_shape(s: Seq<char>)
    ensures
        trim(s).len() > 0 ==> !is_space(trim(s)[0]) && !is_space(trim(s).last()),
        trim(s).len() <= s.len(),
{
    lemma_trim_start_skip(s);
    let a = trim_start(s);
    lemma_trim_end_take(a);
    if trim(s).len() > 0 {
        assert(trim(s)[0] == a[0]);
        assert(trim(s).last() == a[a.len() - space_suffix(a) - 1]);
    }
}

/// Trimming removes white space from both ends and nothing else: the result
/// is a stretch of the text, everything before and after it is white space,
/// and it neither starts nor ends with white space.
pub proof fn lemma_trim_removes_only_outer_space(s: Seq<char>)
    ensures
        exists|a: int, b: int|
            0 <= a <= b <= s.len() && trim(s) == s.subrange(a, b) && (forall|i: int|
                0 <= i < a ==> is_space(#[trigger] s[i])) && (forall|i: int|
                b <= i < s.len() ==> is_space(#[trigger] s[i])) && (a < b ==> !is_space(s[a])
                && !is_space(s[b - 1])),
{
    lemma_trim_start_skip(s);
    let a = space_prefix(s) as int;
    let t = trim_start(s);
    lemma_trim_end_take(t);
    let b = a + t.len() - space_suffix(t);
    assert(trim(s) =~= s.subrange(a, b));
    assert forall|i: int| b <= i < s.len() implies is_space(#[trigger] s[i]) by {
        assert(s[i] == t[i - a]);
    }
    if a < b {
        assert(s[a] == t[0]);
        assert(s[b - 1] == t[t.len() - space_suffix(t) - 1]);
        if space_suffix(t) == t.len() {
            assert(false);
        }
        if a < s.len() && is_space(s[a]) {
            assert(t.len() > 0);
        }
    }
}

/// `str::trim` over a character sequence held in a vector.
pub fn trim_chars(s: &Vec<char>) -> (r: Vec<char>)
    ensures
        r@ == trim(s@),
{
    proof {
        lemma_trim_start_skip(s@);
        lemma_trim_end_take(s@.skip(space_prefix(s@) as int));
    }
    let n = s.len();
    let mut start: usize = 0;
    while start < n && is_space_char(s[start])
        invariant
            n == s@.len(),
            start <= n,
            start <= space_prefix(s@),
            space_prefix(s@) <= n,
            space_prefix(s@) < n ==> !is_space(s@[space_prefix(s@) as int]),
            forall|i: int| 0 <= i < start ==> is_space(#[trigger] s@[i]),
        decreases n - start,
    {
        start = start + 1;
    }
    assert(start == space_prefix(s@)) by {
        if start < space_prefix(s@) {
            assert(is_space(s@[start as int]));
        }
    }
    let ghost a = s@.skip(start as int);
    let mut end: usize = n;
    while end > start && is_space_char(s[end - 1])
        invariant
            n == s@.len(),
            start <= end <= n,
            a == s@.skip(start as int),
            n - end <= space_suffix(a),
            space_suffix(a) <= a.len(),
            space_suffix(a) < a.len() ==> !is_space(a[a.len() - space_suffix(a) - 1]),
            forall|i: int| end <= i < n ==> is_space(#[trigger] s@[i]),
        decreases end,
    {
        assert(a[a.len() - (n - end) - 1] == s@[end - 1]);
        end = end - 1;
    }
    assert(n - end == space_suffix(a)) by {
        if n - end < space_suffix(a) {
            assert(a[a.len() - (n - end) - 1] == s@[end - 1]);
        }
    }
    let mut out: Vec<char> = Vec::new();
    let mut i: usize = start;
    while i < end
        invariant
            start <= i <= end <= n,
            n == s@.len(),
            out@ == s@.subrange(start as int, i as int),
        decreases end - i,
    {
        out.push(s[i]);
        assert(out@ =~= s@.subrange(start as int, i + 1));
        i = i + 1;
    }
    assert(out@ =~= a.take(a.len() - space_suffix(a)));
    out
}

// ---------------------------------------------------------------------------
// Lines
// ---------------------------------------------------------------------------
/// Splitting at `\n`, one character at a time: the finished lines so far,
/// each still with a `\r` it may end in, and the line being read.
pub open spec fn split_state(s: Seq<char>) -> (Seq<Seq<char>>, Seq<char>)
    decreases s.len(),
{
    if s.len() == 0 {
        (Seq::empty(), Seq::empty())
    } else {
        let (done, cur) = split_state(s.drop_last());
        if s.last() == '\n' {
            (done.push(cur), Seq::empty())
        } else {
            (done, cur.push(s.last()))
        }
    }
}

/// A line ended by `\n` loses one `\r` before it.
pub open spec fn strip_cr(line: Seq<char>) -> Seq<char> {
    if line.len() > 0 && line.last() == '\r' {
        line.drop_last()
    } else {
        line
    }
}

/// `str::lines`: the text split at each `\n`, a `\r` right before the `\n`
/// dropped, and no empty line after a final `\n`.
pub open spec fn lines(s: Seq<char>) -> Seq<Seq<char>> {
    let (done, cur) = split_state(s);
    let ended = done.map_values(|l: Seq<char>| strip_cr(l));
    if cur.len() == 0 {
        ended
    } else {
        ended.push(cur)
    }
}

/// The characters of a string, in order.
pub fn chars_of(t: &str) -> (v: Vec<char>)
    ensures
        v@ == t@,
{
    let mut out: Vec<char> = Vec::new();
    for c in it: t.chars()
        invariant
            it.seq() == t@,
            out@ == t@.take(it.index() as int),
    {
        out.push(c);
        assert(out@ =~= t@.take(it.index() as int + 1));
    }
    assert(t@.take(t@.len() as int) =~= t@);
    out
}

/// A string holding the given characters.
pub fn string_of(v: &Vec<char>) -> (s: String)
    ensures
        s@ == v@,
{
    let mut out = String::new();
    let mut i: usize = 0;
    while i < v.len()
        invariant
            i <= v@.len(),
            out@ == v@.take(i as int),
        decreases v@.len() - i,
    {
        push_char(&mut out, v[i]);
        assert(out@ =~= v@.take(i + 1));
        i = i + 1;
    }
    assert(v@.take(v@.len() as int) =~= v@);
    out
}

// ---------------------------------------------------------------------------
// Decimal numbers
// ---------------------------------------------------------------------------
/// The character of a decimal digit.
pub open spec fn digit_char(d: nat) -> char {
    ((48 + d) as u32) as char
}

/// The decimal form of a number, as `to_string` writes it: no sign, no
/// leading zeros, `0` for zero.
pub open spec fn decimal(n: nat) -> Seq<char>
    decreases n,
{
    if n < 10 {
        seq![digit_char(n)]
    } else {
        decimal(n / 10).push(digit_char(n % 10))
    }
}

/// Appends the decimal form of `n`.
pub fn push_decimal(s: &mut String, n: u64)
    ensures
        final(s)@ == old(s)@ + decimal(n as nat),
    decreases n,
{
    if n >= 10 {
        push_decimal(s, n / 10);
    }
    let d: u8 = (n % 10) as u8;
    let c = (48u8 + d) as char;
    assert(c == digit_char((n % 10) as nat));
    let ghost before = s@;
    push_char(s, c);
    proof {
        if n >= 10 {
            assert(s@ =~= old(s)@ + decimal(n as nat));
        } else {
            assert(s@ =~= old(s)@ + decimal(n as nat));
        }
    }
}

/// The decimal form of `n` as a new string.
pub fn decimal_string(n: u64) -> (s: String)
    ensures
        s@ == decimal(n as nat),
{
    let mut s = String::new();
    push_decimal(&mut s, n);
    assert(s@ =~= decimal(n as nat));
    s
}

/// Whether a character is an ASCII decimal digit.
pub open spec fn is_digit(c: char) -> bool {
    '0' <= c && c <= '9'
}

/// The value of a digit character.
pub open spec fn digit_value(c: char) -> nat {
    ((c as u32) - 48) as nat
}

/// Whether every character is a digit.
pub open spec fn all_digits(s: Seq<char>) -> bool {
    forall|i: int| 0 <= i < s.len() ==> is_digit(#[trigger] s[i])
}

/// The number a string of digits spells, leading zeros allowed.
pub open spec fn digits_value(s: Seq<char>) -> nat
    decreases s.len(),
{
    if s.len() == 0 {
        0
    } else {
        digits_value(s.drop_last()) * 10 + digit_value(s.last())
    }
}

/// What `u32::from_str` accepts and gives: an optional `+`, then one or more
/// ASCII digits whose value fits in a `u32`. Anything else is an error.
pub open spec fn parse_u32_spec(s: Seq<char>) -> Option<u32> {
    let d = if s.len() > 0 && s[0] == '+' {
        s.drop_first()
    } else {
        s
    };
    if d.len() > 0 && all_digits(d) && digits_value(d) <= u32::MAX {
        Some(digits_value(d) as u32)
    } else {
        None
    }
}

proof fn lemma_digits_value_monotone(s: Seq<char>, i: int)
    requires
        0 <= i <= s.len(),
        all_digits(s),
    ensures
        digits_value(s.take(i)) <= digits_value(s),
    decreases s.len() - i,
{
    if i < s.len() {
        lemma_digits_value_monotone(s, i + 1);
        assert(s.take(i + 1).drop_last() =~= s.take(i));
        assert(digits_value(s.take(i + 1)) == digits_value(s.take(i)) * 10 + digit_value(
            s[i],
        ));
    } else {
        assert(s.take(i) =~= s);
    }
}

/// Reads a decimal `u32` the way `str::parse::<u32>` does.
pub fn parse_u32(t: &str) -> (r: Option<u32>)
    ensures
        r == parse_u32_spec(t@),
{
    let v = chars_of(t);
    let n = v.len();
    let mut start: usize = 0;
    if n > 0 && v[0] == '+' {
        start = 1;
    }
    let ghost d = if t@.len() > 0 && t@[0] == '+' {
        t@.drop_first()
    } else {
        t@
    };
    assert(d =~= v@.skip(start as int));
    if start == n {
        return None;
    }
    let mut acc: u64 = 0;
    let mut i: usize = start;
    while i < n
        invariant
            start <= i <= n,
            n == v@.len(),
            v@ == t@,
            d == (if t@.len() > 0 && t@[0] == '+' {
                t@.drop_first()
            } else {
                t@
            }),
            d.len() > 0,
            d == v@.skip(start as int),
            acc == digits_value(d.take(i - start)),
            acc <= u32::MAX,
            all_digits(d.take(i - start)),
        decreases n - i,
    {
        let c = v[i];
        assert(d.take(i - start + 1).drop_last() =~= d.take(i - start));
        assert(d.take(i - start + 1).last() == c);
        if !('0' <= c && c <= '9') {
            assert(d[i - start] == v@[i as int]);
            assert(!all_digits(d)) by {
                assert(!is_digit(d[i - start]));
            }
            return None;
        }
        let dv: u64 = (c as u32 - 48) as u64;
        assert(dv == digit_value(c));
        acc = acc * 10 + dv;
        assert(acc == digits_value(d.take(i - start + 1)));
        assert(all_digits(d.take(i - start + 1))) by {
            assert forall|j: int| 0 <= j < d.take(i - start + 1).len() implies is_digit(
                #[trigger] d.take(i - start + 1)[j],
            ) by {
                if j < i - start {
                    assert(d.take(i - start + 1)[j] == d.take(i - start)[j]);
                }
            }
        }
        if acc > 0xFFFF_FFFFu64 {
            proof {
                if all_digits(d) {
                    lemma_digits_value_monotone(d, i - start + 1);
                }
            }
            return None;
        }
        i = i + 1;
    }
    assert(d.take(n - start) =~= d);
    Some(acc as u32)
}

proof fn lemma_digit_char(d: nat)
    requires
        d < 10,
    ensures
        is_digit(digit_char(d)),
        digit_value(digit_char(d)) == d,
        digit_char(d) != '+',
{
    assert(((48 + d) as u32) as char as u32 == 48 + d);
}

/// The decimal form of a number is all digits, with the number's value.
pub proof fn lemma_decimal_digits(n: nat)
    ensures
        decimal(n).len() > 0,
        all_digits(decimal(n)),
        digits_value(decimal(n)) == n,
        decimal(n)[0] != '+',
    decreases n,
{
    lemma_digit_char(n % 10);
    if n < 10 {
        assert(decimal(n).drop_last() =~= Seq::<char>::empty());
        assert(digits_value(Seq::<char>::empty()) == 0);
        assert(digits_value(decimal(n)) == digits_value(decimal(n).drop_last()) * 10
            + digit_value(decimal(n).last()));
    }
    if n >= 10 {
        lemma_decimal_digits(n / 10);
        let s = decimal(n);
        assert(s.drop_last() =~= decimal(n / 10));
        assert(s.last() == digit_char(n % 10));
        assert((n / 10) * 10 + n % 10 == n);
        assert(digits_value(s) == digits_value(s.drop_last()) * 10 + digit_value(s.last()));
        assert forall|i: int| 0 <= i < s.len() implies is_digit(#[trigger] s[i]) by {
            if i < s.len() - 1 {
                assert(s[i] == decimal(n / 10)[i]);
            }
        }
        assert(s[0] == decimal(n / 10)[0]);
    }
}

/// Reading back a written `u32` gives the number again.
pub proof fn lemma_parse_decimal(n: u32)
    ensures
        parse_u32_spec(decimal(n as nat)) == Some(n),
{
    lemma_decimal_digits(n as nat);
}

/// Different numbers are written differently.
pub proof fn lemma_decimal_injective(a: nat, b: nat)
    requires
        decimal(a) == decimal(b),
    ensures
        a == b,
{
    lemma_decimal_digits(a);
    lemma_decimal_digits(b);
}

/// Whether a text holds no `\n`.
pub open spec fn no_newline(s: Seq<char>) -> bool {
    forall|i: int| 0 <= i < s.len() ==> #[trigger] s[i] != '\n'
}

/// The lines a split produces hold no `\n`.
pub proof fn lemma_split_state_no_newline(s: Seq<char>)
    ensures
        forall|k: int| 0 <= k < split_state(s).0.len() ==> no_newline(#[trigger] split_state(s).0[k]),
        no_newline(split_state(s).1),
    decreases s.len(),
{
    if s.len() > 0 {
        lemma_split_state_no_newline(s.drop_last());
        let (done, cur) = split_state(s.drop_last());
        if s.last() != '\n' {
            assert forall|i: int| 0 <= i < cur.push(s.last()).len() implies #[trigger] cur.push(
                s.last(),
            )[i] != '\n' by {
                if i < cur.len() {
                    assert(cur.push(s.last())[i] == cur[i]);
                }
            }
        } else {
            assert forall|k: int| 0 <= k < done.push(cur).len() implies no_newline(
                #[trigger] done.push(cur)[k],
            ) by {
                if k < done.len() {
                    assert(done.push(cur)[k] == done[k]);
                }
            }
        }
    }
}

/// Appending text without a `\n` extends the line being read.
proof fn lemma_split_append(a: Seq<char>, b: Seq<char>)
    requires
        no_newline(b),
    ensures
        split_state(a + b) == (split_state(a).0, split_state(a).1 + b),
    decreases b.len(),
{
    if b.len() == 0 {
        assert(a + b =~= a);
        assert(split_state(a).1 + b =~= split_state(a).1);
    } else {
        let b0 = b.drop_last();
        assert forall|i: int| 0 <= i < b0.len() implies #[trigger] b0[i] != '\n' by {
            assert(b0[i] == b[i]);
        }
        lemma_split_append(a, b0);
        assert((a + b).drop_last() =~= a + b0);
        assert((a + b).last() == b.last());
        assert(b.last() == b[b.len() - 1]);
        assert(split_state(a).1 + b0 + seq![b.last()] =~= split_state(a).1 + b);
        assert((split_state(a).1 + b0).push(b.last()) =~= split_state(a).1 + b);
    }
}

/// Lines without `\n` joined with `\n` split back into the same lines: all
/// but the last finished, the last being read.
pub proof fn lemma_split_join(ns: Seq<Seq<char>>)
    requires
        ns.len() > 0,
        forall|k: int| 0 <= k < ns.len() ==> no_newline(#[trigger] ns[k]),
    ensures
        split_state(join(ns, seq!['\n'])) == (ns.drop_last(), ns.last()),
    decreases ns.len(),
{
    let sep = seq!['\n'];
    if ns.len() == 1 {
        assert(no_newline(ns[0]));
        lemma_split_append(Seq::empty(), ns[0]);
        assert(Seq::<char>::empty() + ns[0] =~= ns[0]);
        assert(Seq::<char>::empty() + ns[0] =~= ns[0]);
        assert(ns.drop_last() =~= Seq::<Seq<char>>::empty());
    } else {
        let front = ns.drop_last();
        assert forall|k: int| 0 <= k < front.len() implies no_newline(#[trigger] front[k]) by {
            assert(front[k] == ns[k]);
        }
        lemma_split_join(front);
        let j = join(front, sep);
        assert(no_newline(ns.last())) by {
            assert(ns.last() == ns[ns.len() - 1]);
        }
        assert((j + sep).drop_last() =~= j);
        assert(split_state(j + sep) == (front.drop_last().push(front.last()), Seq::<char>::empty()));
        assert(front.drop_last().push(front.last()) =~= front);
        lemma_split_append(j + sep, ns.last());
        assert(Seq::<char>::empty() + ns.last() =~= ns.last());
    }
}

/// Text with something other than white space at both ends is its own trim.
pub proof fn lemma_trim_unchanged(s: Seq<char>)
    requires
        s.len() > 0,
        !is_space(s[0]),
        !is_space(s.last()),
    ensures
        trim(s) == s,
{
}

/// Trimming keeps a text free of `\n`.
pub proof fn lemma_trim_no_newline(s: Seq<char>)
    requires
        no_newline(s),
    ensures
        no_newline(trim(s)),
{
    lemma_trim_start_skip(s);
    let a = trim_start(s);
    lemma_trim_end_take(a);
    assert forall|i: int| 0 <= i < trim(s).len() implies #[trigger] trim(s)[i] != '\n' by {
        assert(trim(s)[i] == a[i]);
        assert(a[i] == s[i + space_prefix(s)]);
    }
}

/// Lower casing keeps a text free of `\n`.
pub proof fn lemma_lower_no_newline(s: Seq<char>)
    requires
        no_newline(s),
    ensures
        no_newline(lower(s)),
{
    assert forall|i: int| 0 <= i < lower(s).len() implies #[trigger] lower(s)[i] != '\n' by {
        let c = s[i];
        assert(lower(s)[i] == lower_char(c));
        if 'A' <= c && c <= 'Z' {
            assert((c as u32) + 32 >= 97);
            assert(lower_char(c) as u32 == (c as u32) + 32);
        }
    }
}

// ---------------------------------------------------------------------------
// Joining
// ---------------------------------------------------------------------------
/// The parts laid end to end with `sep` between neighbours.
pub open spec fn join(parts: Seq<Seq<char>>, sep: Seq<char>) -> Seq<char>
    decreases parts.len(),
{
    if parts.len() == 0 {
        Seq::empty()
    } else if parts.len() == 1 {
        parts[0]
    } else {
        join(parts.drop_last(), sep) + sep + parts.last()
    }
}

/// `[String]::join`.
pub fn join_strings(parts: &Vec<String>, sep: &str) -> (r: String)
    ensures
        r@ == join(parts.deep_view(), sep@),
{
    let ghost dv = parts.deep_view();
    let mut out = String::new();
    let mut i: usize = 0;
    while i < parts.len()
        invariant
            i <= parts@.len(),
            dv == parts.deep_view(),
            dv.len() == parts@.len(),
            forall|k: int| 0 <= k < parts@.len() ==> #[trigger] dv[k] == parts@[k]@,
            out@ == join(dv.take(i as int), sep@),
        decreases parts@.len() - i,
    {
        if i > 0 {
            out.append(sep);
        }
        out.append(parts[i].as_str());
        assert(dv.take(i + 1).drop_last() =~= dv.take(i as int));
        proof {
            if i == 0 {
                assert(out@ =~= join(dv.take(1), sep@));
            }
        }
        i = i + 1;
    }
    assert(dv.take(parts@.len() as int) =~= dv);
    out
}

// ---------------------------------------------------------------------------
// UTF-16
// ---------------------------------------------------------------------------
/// The UTF-16 code units of one character: one unit below U+10000, else a
/// surrogate pair.
pub open spec fn utf16_char(c: char) -> Seq<u16> {
    let v = c as u32;
    if v < 0x10000 {
        seq![v as u16]
    } else {
        let w = (v - 0x10000) as nat;
        seq![(0xD800 + w / 1024) as u16, (0xDC00 + w % 1024) as u16]
    }
}

/// `str::encode_utf16`: the code units of the whole text.
pub open spec fn utf16(s: Seq<char>) -> Seq<u16>
    decreases s.len(),
{
    if s.len() == 0 {
        Seq::empty()
    } else {
        utf16(s.drop_last()) + utf16_char(s.last())
    }
}

/// Appends the UTF-16 units of one character.
fn push_utf16_char(out: &mut Vec<u16>, c: char)
    ensures
        final(out)@ == old(out)@ + utf16_char(c),
{
    let v: u32 = c as u32;
    if v < 0x10000 {
        out.push(v as u16);
        assert(out@ =~= old(out)@ + utf16_char(c));
    } else {
        assert(v <= 0x10FFFF);
        let w: u32 = v - 0x10000;
        out.push((0xD800 + w / 1024) as u16);
        out.push((0xDC00 + w % 1024) as u16);
        assert(out@ =~= old(out)@ + utf16_char(c));
    }
}

/// The UTF-16 units of a text.
pub fn encode_utf16(t: &str) -> (r: Vec<u16>)
    ensures
        r@ == utf16(t@),
{
    let mut out: Vec<u16> = Vec::new();
    for c in it: t.chars()
        invariant
            it.seq() == t@,
            out@ == utf16(t@.take(it.index() as int)),
    {
        push_utf16_char(&mut out, c);
        assert(t@.take(it.index() + 1).drop_last() =~= t@.take(it.index() as int));
    }
    assert(t@.take(t@.len() as int) =~= t@);
    out
}

/// A null terminated wide string for APIs that take a pointer.
pub fn wide(text: &str) -> (r: Vec<u16>)
    ensures
        r@ == utf16(text@).push(0u16),
{
    let mut out = encode_utf16(text);
    out.push(0);
    out
}

/// What a fixed size wide field holds after [`set_wide_field`]: the first
/// `len - 1` code units of the text, then zeros to the end.
pub open spec fn wide_field(len: nat, text: Seq<char>) -> Seq<u16> {
    let units = utf16(text);
    let max = if len == 0 {
        0
    } else {
        (len - 1) as nat
    };
    Seq::new(len, |i: int| if i < max && i < units.len() { units[i] } else { 0u16 })
}

/// Copy a string into a fixed size wide field, always null terminated: the
/// field is cleared, then filled with as many code units as leave room for
/// the terminator.
pub fn set_wide_field(field: &mut [u16], text: &str)
    ensures
        final(field)@ == wide_field(old(field)@.len(), text@),
{
    let units = encode_utf16(text);
    let n = field.len();
    let max: usize = if n == 0 {
        0
    } else {
        n - 1
    };
    let mut i: usize = 0;
    while i < n
        invariant
            n == field@.len(),
            n == old(field)@.len(),
            units@ == utf16(text@),
            max == (if n == 0 {
                0
            } else {
                n - 1
            }),
            i <= n,
            forall|k: int| 0 <= k < i ==> #[trigger] field@[k] == wide_field(n as nat, text@)[k],
        decreases n - i,
    {
        let u: u16 = if i < max && i < units.len() {
            units[i]
        } else {
            0
        };
        field[i] = u;
        i = i + 1;
    }
    assert(field@ =~= wide_field(n as nat, text@));
}

/// A wide field is always null terminated, and holds the start of the text.
pub proof fn lemma_wide_field_terminated(len: nat, text: Seq<char>)
    requires
        len > 0,
    ensures
        wide_field(len, text).len() == len,
        wide_field(len, text)[len - 1] == 0,
        forall|i: int|
            0 <= i < len - 1 && i < utf16(text).len() ==> #[trigger] wide_field(len, text)[i]
                == utf16(text)[i],
{
}

// ---------------------------------------------------------------------------
// Hexadecimal
// ---------------------------------------------------------------------------
/// The lower case character of a hex digit.
pub open spec fn hex_char(d: nat) -> char {
    if d < 10 {
        digit_char(d)
    } else {
        ((87 + d) as u32) as char
    }
}

/// `{:#06x}` of a `u16`: `0x` and exactly four lower case hex digits.
pub open spec fn hex4(v: u16) -> Seq<char> {
    let n = v as nat;
    seq![
        '0',
        'x',
        hex_char(n / 4096),
        hex_char((n / 256) % 16),
        hex_char((n / 16) % 16),
        hex_char(n % 16),
    ]
}

fn hex_digit(d: u16) -> (c: char)
    requires
        d < 16,
    ensures
        c == hex_char(d as nat),
{
    if d < 10 {
        (48u8 + d as u8) as char
    } else {
        (87u8 + d as u8) as char
    }
}

/// Appends `{:#06x}` of a `u16`.
pub fn push_hex4(s: &mut String, v: u16)
    ensures
        final(s)@ == old(s)@ + hex4(v),
{
    push_char(s, '0');
    push_char(s, 'x');
    push_char(s, hex_digit(v / 4096));
    push_char(s, hex_digit((v / 256) % 16));
    push_char(s, hex_digit((v / 16) % 16));
    push_char(s, hex_digit(v % 16));
    assert(s@ =~= old(s)@ + hex4(v));
}

} // verus!
