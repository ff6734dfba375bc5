//! Character-level helpers shared by the tokenizer and the parser:
//! whitespace trimming and splitting, decimal integer parsing, and a
//! recognizer for floating-point number syntax (held as text).

use vstd::prelude::*;

verus! {

/// An ASCII whitespace character, as `char::is_ascii_whitespace` counts them.
pub open spec fn is_ws_char(c: char) -> bool {
    c == ' ' || c == '\t' || c == '\n' || c == '\x0C' || c == '\r'
}

/// `s` with every trailing ASCII whitespace character removed.
pub open spec fn trim_end_ws(s: Seq<char>) -> Seq<char>
    decreases s.len(),
{
    if s.len() > 0 && is_ws_char(s.last()) {
        trim_end_ws(s.drop_last())
    } else {
        s
    }
}

/// `s` split at every ASCII whitespace character, empty pieces kept,
/// as `str::split` with a whitespace pattern splits. Splitting the empty
/// sequence gives one empty field.
pub open spec fn split_ws(s: Seq<char>) -> Seq<Seq<char>>
    decreases s.len(),
{
    if s.len() == 0 {
        seq![Seq::<char>::empty()]
    } else {
        let r = split_ws(s.drop_last());
        if is_ws_char(s.last()) {
            r.push(Seq::<char>::empty())
        } else {
            r.update(r.len() - 1, r.last().push(s.last()))
        }
    }
}

/// The whitespace-delimited fields of a line, after trailing whitespace
/// is removed. A blank line has exactly one field, the empty one.
pub open spec fn fields_of(line: Seq<char>) -> Seq<Seq<char>> {
    split_ws(trim_end_ws(line))
}

pub proof fn lemma_split_ws_len(s: Seq<char>)
    ensures
        split_ws(s).len() >= 1,
    decreases s.len(),
{
    if s.len() > 0 {
        lemma_split_ws_len(s.drop_last());
    }
}

/// Removing a whitespace-only suffix and then trimming is the same as
/// trimming the whole sequence.
pub proof fn lemma_trim_end_take(s: Seq<char>, t: int)
    requires
        0 <= t <= s.len(),
        forall|j: int| t <= j < s.len() ==> is_ws_char(s[j]),
        t > 0 ==> !is_ws_char(s[t - 1]),
    ensures
        trim_end_ws(s) == s.take(t),
    decreases s.len(),
{
    if s.len() == t {
        assert(s.take(t) =~= s);
    } else {
        lemma_trim_end_take(s.drop_last(), t);
        assert(s.drop_last().take(t) =~= s.take(t));
    }
}

pub(crate) fn is_ws(c: char) -> (r: bool)
    ensures
        r == is_ws_char(c),
{
    c == ' ' || c == '\t' || c == '\n' || c == '\x0C' || c == '\r'
}

/// Relies on `String::push`: appends the one character `c` to `s`.
#[verifier::external_body]
pub fn push_char(s: &mut String, c: char)
    ensures
        final(s)@ == old(s)@.push(c),
{
    s.push(c)
}

/// The number of characters of `line` that remain once trailing ASCII
/// whitespace is removed.
pub fn trimmed_len(line: &str) -> (t: usize)
    ensures
        trim_end_ws(line@) == line@.take(t as int),
        t <= line@.len(),
{
    let n = line.unicode_len();
    let mut t: usize = n;
    while t > 0 && is_ws(line.get_char(t - 1))
        invariant
            t <= n,
            n == line@.len(),
            forall|j: int| t <= j < n ==> is_ws_char(line@[j]),
        decreases t,
    {
        t = t - 1;
    }
    proof {
        lemma_trim_end_take(line@, t as int);
    }
    t
}

/// Splits `line`, its trailing whitespace removed, into its
/// whitespace-delimited fields, empty fields kept.
pub fn split_fields(line: &str) -> (r: Vec<String>)
    ensures
        r@.map_values(|f: String| f@) == fields_of(line@),
        r.len() >= 1,
{
    let t = trimmed_len(line);
    let mut fields: Vec<String> = Vec::new();
    let mut cur: String = String::new();
    let mut i: usize = 0;
    while i < t
        invariant
            i <= t,
            t <= line@.len(),
            trim_end_ws(line@) == line@.take(t as int),
            split_ws(line@.take(i as int)) == fields@.map_values(|f: String| f@).push(cur@),
        decreases t - i,
    {
        let c = line.get_char(i);
        proof {
            assert(line@.take(i + 1) =~= line@.take(i as int).push(line@[i as int]));
            assert(line@.take(i + 1).drop_last() =~= line@.take(i as int));
        }
        if is_ws(c) {
            fields.push(cur);
            cur = String::new();
            proof {
                assert(fields@.map_values(|f: String| f@).push(cur@)
                    =~= split_ws(line@.take(i as int)).push(Seq::<char>::empty()));
            }
        } else {
            push_char(&mut cur, c);
            proof {
                let prev = split_ws(line@.take(i as int));
                lemma_split_ws_len(line@.take(i as int));
                assert(fields@.map_values(|f: String| f@).push(cur@)
                    =~= prev.update(prev.len() - 1, prev.last().push(line@[i as int])));
            }
        }
        i = i + 1;
    }
    fields.push(cur);
    proof {
        assert(fields@.map_values(|f: String| f@)
            =~= split_ws(line@.take(t as int)));
    }
    fields
}

/// A decimal digit.
pub open spec fn is_digit_char(c: char) -> bool {
    '0' <= c && c <= '9'
}

/// The value of one decimal digit.
pub open spec fn digit_val(c: char) -> int {
    c as int - '0' as int
}

pub open spec fn all_digits(s: Seq<char>) -> bool {
    forall|i: int| 0 <= i < s.len() ==> is_digit_char(s[i])
}

/// The value of a sequence of decimal digits, most significant first.
pub open spec fn digits_val(s: Seq<char>) -> int
    decreases s.len(),
{
    if s.len() == 0 {
        0
    } else {
        digits_val(s.drop_last()) * 10 + digit_val(s.last())
    }
}

/// The value of a digit sequence is at least the value of any of its
/// prefixes, and never negative.
pub proof fn lemma_digits_val_prefix(s: Seq<char>, k: int)
    requires
        all_digits(s),
        0 <= k <= s.len(),
    ensures
        0 <= digits_val(s.take(k)) <= digits_val(s),
    decreases s.len(),
{
    if s.len() == 0 {
    } else if k == s.len() {
        assert(s.take(k) =~= s);
        lemma_digits_val_prefix(s.drop_last(), s.len() - 1);
        assert(s.drop_last() =~= s.take(s.len() - 1));
    } else {
        lemma_digits_val_prefix(s.drop_last(), k);
        assert(s.drop_last().take(k) =~= s.take(k));
    }
}

/// How `u32::from_str` and friends read an unsigned value: an optional
/// leading `+`, then at least one digit, and the value must fit the bound
/// that the caller's type imposes. `dec_of` gives the value, unbounded.
pub open spec fn unsigned_body(s: Seq<char>) -> Seq<char> {
    if s.len() > 0 && s[0] == '+' {
        s.drop_first()
    } else {
        s
    }
}

pub open spec fn dec_u32_of(s: Seq<char>) -> Option<u32> {
    let d = unsigned_body(s);
    if d.len() > 0 && all_digits(d) && digits_val(d) <= u32::MAX {
        Some(digits_val(d) as u32)
    } else {
        None
    }
}

pub open spec fn dec_usize_of(s: Seq<char>) -> Option<usize> {
    let d = unsigned_body(s);
    if d.len() > 0 && all_digits(d) && digits_val(d) <= usize::MAX {
        Some(digits_val(d) as usize)
    } else {
        None
    }
}

/// How `i32::from_str` reads a signed value: an optional sign, at least
/// one digit, and the value must lie in the type's range.
pub open spec fn dec_i32_of(s: Seq<char>) -> Option<i32> {
    if s.len() > 0 && s[0] == '-' {
        let d = s.drop_first();
        if d.len() > 0 && all_digits(d) && digits_val(d) <= 0x8000_0000 {
            Some((-digits_val(d)) as i32)
        } else {
            None
        }
    } else {
        let d = unsigned_body(s);
        if d.len() > 0 && all_digits(d) && digits_val(d) <= i32::MAX {
            Some(digits_val(d) as i32)
        } else {
            None
        }
    }
}

/// Reads the digits of `s` from `from` to the end, refusing a value
/// above `cap`, an empty run, and any non-digit.
fn dec_value(s: &str, from: usize, cap: u128) -> (r: Option<u128>)
    requires
        from <= s@.len(),
        cap < 0x1_0000_0000_0000_0000_0000u128,
    ensures
        ({
            let d = s@.skip(from as int);
            match r {
                Some(v) => d.len() > 0 && all_digits(d) && digits_val(d) == v && v <= cap,
                None => !(d.len() > 0 && all_digits(d) && digits_val(d) <= cap),
            }
        }),
{
    let ghost d = s@.skip(from as int);
    let n = s.unicode_len();
    if from == n {
        return None;
    }
    let mut acc: u128 = 0;
    let mut i: usize = from;
    while i < n
        invariant
            from <= i <= n,
            n == s@.len(),
            d == s@.skip(from as int),
            cap < 0x1_0000_0000_0000_0000_0000u128,
            all_digits(d.take(i - from)),
            acc == digits_val(d.take(i - from)),
            acc <= cap,
        decreases n - i,
    {
        let c = s.get_char(i);
        proof {
            assert(d.take(i + 1 - from) =~= d.take(i - from).push(s@[i as int]));
            assert(d.take(i + 1 - from).drop_last() =~= d.take(i - from));
        }
        if !(c >= '0' && c <= '9') {
            assert(!is_digit_char(d[i - from]));
            return None;
        }
        let dv: u128 = (c as u32 - '0' as u32) as u128;
        let next: u128 = acc * 10 + dv;
        if next > cap {
            proof {
                if all_digits(d) {
                    lemma_digits_val_prefix(d, i + 1 - from);
                }
            }
            return None;
        }
        acc = next;
        i = i + 1;
    }
    proof {
        assert(d.take(n - from) =~= d);
    }
    Some(acc)
}

/// Reads `s` as `u32::from_str` does, the result of that read.
pub fn parse_u32_text(s: &str) -> (r: Option<u32>)
    ensures
        r == dec_u32_of(s@),
{
    let n = s.unicode_len();
    let start: usize = if n > 0 && s.get_char(0) == '+' {
        1
    } else {
        0
    };
    proof {
        assert(s@.skip(start as int) =~= unsigned_body(s@));
    }
    match dec_value(s, start, 0xFFFF_FFFFu128) {
        Some(v) => Some(v as u32),
        None => None,
    }
}

/// Reads `s` as `usize::from_str` does, the result of that read.
pub fn parse_usize_text(s: &str) -> (r: Option<usize>)
    ensures
        r == dec_usize_of(s@),
{
    let n = s.unicode_len();
    let start: usize = if n > 0 && s.get_char(0) == '+' {
        1
    } else {
        0
    };
    proof {
        assert(s@.skip(start as int) =~= unsigned_body(s@));
    }
    match dec_value(s, start, usize::MAX as u128) {
        Some(v) => Some(v as usize),
        None => None,
    }
}

/// Reads `s` as `i32::from_str` does, the result of that read.
pub fn parse_i32_text(s: &str) -> (r: Option<i32>)
    ensures
        r == dec_i32_of(s@),
{
    let n = s.unicode_len();
    if n > 0 && s.get_char(0) == '-' {
        proof {
            assert(s@.skip(1) =~= s@.drop_first());
        }
        match dec_value(s, 1, 0x8000_0000u128) {
            Some(v) => {
                if v == 0x8000_0000u128 {
                    Some(i32::MIN)
                } else {
                    Some(-(v as i32))
                }
            },
            None => None,
        }
    } else {
        let start: usize = if n > 0 && s.get_char(0) == '+' {
            1
        } else {
            0
        };
        proof {
            assert(s@.skip(start as int) =~= unsigned_body(s@));
        }
        match dec_value(s, start, 0x7FFF_FFFFu128) {
            Some(v) => Some(v as i32),
            None => None,
        }
    }
}

/// Case-insensitive match of one character against a lower/upper pair.
pub open spec fn eq_ic(c: char, lo: char, up: char) -> bool {
    c == lo || c == up
}

pub open spec fn is_e_char(c: char) -> bool {
    c == 'e' || c == 'E'
}

/// The index of the first exponent marker in `s`, or `s.len()` if none.
pub open spec fn first_e(s: Seq<char>) -> int
    decreases s.len(),
{
    if s.len() == 0 {
        0
    } else if is_e_char(s[0]) {
        0
    } else {
        1 + first_e(s.drop_first())
    }
}

/// The index of the first `.` in `s`, or `s.len()` if none.
pub open spec fn first_dot(s: Seq<char>) -> int
    decreases s.len(),
{
    if s.len() == 0 {
        0
    } else if s[0] == '.' {
        0
    } else {
        1 + first_dot(s.drop_first())
    }
}

pub proof fn lemma_first_e_at(s: Seq<char>, k: int)
    requires
        0 <= k <= s.len(),
        forall|j: int| 0 <= j < k ==> !is_e_char(s[j]),
        k < s.len() ==> is_e_char(s[k]),
    ensures
        first_e(s) == k,
    decreases s.len(),
{
    if s.len() > 0 && k > 0 {
        lemma_first_e_at(s.drop_first(), k - 1);
    }
}

pub proof fn lemma_first_dot_at(s: Seq<char>, k: int)
    requires
        0 <= k <= s.len(),
        forall|j: int| 0 <= j < k ==> s[j] != '.',
        k < s.len() ==> s[k] == '.',
    ensures
        first_dot(s) == k,
    decreases s.len(),
{
    if s.len() > 0 && k > 0 {
        lemma_first_dot_at(s.drop_first(), k - 1);
    }
}

pub proof fn lemma_first_e_bounds(s: Seq<char>)
    ensures
        0 <= first_e(s) <= s.len(),
        first_e(s) < s.len() ==> is_e_char(s[first_e(s)]),
    decreases s.len(),
{
    if s.len() > 0 && !is_e_char(s[0]) {
        lemma_first_e_bounds(s.drop_first());
    }
}

pub proof fn lemma_first_dot_bounds(s: Seq<char>)
    ensures
        0 <= first_dot(s) <= s.len(),
        first_dot(s) < s.len() ==> s[first_dot(s)] == '.',
    decreases s.len(),
{
    if s.len() > 0 && s[0] != '.' {
        lemma_first_dot_bounds(s.drop_first());
    }
}

pub open spec fn is_inf_text(t: Seq<char>) -> bool {
    t.len() == 3 && eq_ic(t[0], 'i', 'I') && eq_ic(t[1], 'n', 'N') && eq_ic(t[2], 'f', 'F')
}

pub open spec fn is_infinity_text(t: Seq<char>) -> bool {
    t.len() == 8 && eq_ic(t[0], 'i', 'I') && eq_ic(t[1], 'n', 'N') && eq_ic(t[2], 'f', 'F')
        && eq_ic(t[3], 'i', 'I') && eq_ic(t[4], 'n', 'N') && eq_ic(t[5], 'i', 'I')
        && eq_ic(t[6], 't', 'T') && eq_ic(t[7], 'y', 'Y')
}

pub open spec fn is_nan_text(t: Seq<char>) -> bool {
    t.len() == 3 && eq_ic(t[0], 'n', 'N') && eq_ic(t[1], 'a', 'A') && eq_ic(t[2], 'n', 'N')
}

/// The digits of a mantissa, with at most one `.` and at least one digit:
/// `42`, `4.`, `.5` or `1.25`.
pub open spec fn is_mantissa_text(m: Seq<char>) -> bool {
    let d = first_dot(m);
    if d == m.len() {
        m.len() > 0 && all_digits(m)
    } else {
        all_digits(m.take(d)) && all_digits(m.skip(d + 1)) && m.len() > 1
    }
}

/// An exponent tail: an optional sign, then at least one digit.
pub open spec fn is_exp_text(x: Seq<char>) -> bool {
    let y = if x.len() > 0 && (x[0] == '+' || x[0] == '-') {
        x.drop_first()
    } else {
        x
    };
    y.len() > 0 && all_digits(y)
}

/// Floating-point number syntax, as `f64::from_str` documents it: an
/// optional sign, then `inf`, `infinity` or `nan` in any letter case, or
/// a mantissa with an optional `e`/`E` exponent.
pub open spec fn is_number_text(s: Seq<char>) -> bool {
    let t = if s.len() > 0 && (s[0] == '+' || s[0] == '-') {
        s.drop_first()
    } else {
        s
    };
    t.len() > 0 && (is_inf_text(t) || is_infinity_text(t) || is_nan_text(t) || ({
        let k = first_e(t);
        is_mantissa_text(t.take(k)) && (k == t.len() || is_exp_text(t.skip(k + 1)))
    }))
}

/// Whether every character of `s` in `[from, to)` is a decimal digit.
fn all_digits_range(s: &str, from: usize, to: usize) -> (r: bool)
    requires
        from <= to <= s@.len(),
    ensures
        r == all_digits(s@.subrange(from as int, to as int)),
{
    let mut i: usize = from;
    while i < to
        invariant
            from <= i <= to,
            to <= s@.len(),
            forall|j: int| from <= j < i ==> is_digit_char(s@[j]),
        decreases to - i,
    {
        let c = s.get_char(i);
        if !(c >= '0' && c <= '9') {
            assert(!is_digit_char(s@.subrange(from as int, to as int)[i - from]));
            return false;
        }
        i = i + 1;
    }
    true
}

/// The first index in `[from, n)` holding `e` or `E`, or `n` if none.
fn find_e(s: &str, from: usize) -> (r: usize)
    requires
        from <= s@.len(),
    ensures
        from + first_e(s@.skip(from as int)) == r,
        r <= s@.len(),
{
    let n = s.unicode_len();
    let mut i: usize = from;
    while i < n
        invariant
            from <= i <= n,
            n == s@.len(),
            forall|j: int| from <= j < i ==> !is_e_char(s@[j]),
        decreases n - i,
    {
        let c = s.get_char(i);
        if c == 'e' || c == 'E' {
            proof {
                lemma_first_e_at(s@.skip(from as int), i - from);
            }
            return i;
        }
        i = i + 1;
    }
    proof {
        lemma_first_e_at(s@.skip(from as int), n - from);
    }
    n
}

/// The first index in `[from, to)` holding `.`, or `to` if none.
fn find_dot(s: &str, from: usize, to: usize) -> (r: usize)
    requires
        from <= to <= s@.len(),
    ensures
        from + first_dot(s@.subrange(from as int, to as int)) == r,
        r <= to,
{
    let mut i: usize = from;
    while i < to
        invariant
            from <= i <= to,
            to <= s@.len(),
            forall|j: int| from <= j < i ==> s@[j] != '.',
        decreases to - i,
    {
        let c = s.get_char(i);
        if c == '.' {
            proof {
                lemma_first_dot_at(s@.subrange(from as int, to as int), i - from);
            }
            return i;
        }
        i = i + 1;
    }
    proof {
        lemma_first_dot_at(s@.subrange(from as int, to as int), to - from);
    }
    to
}

/// A sequence that opens with a letter is no mantissa, so no decimal.
proof fn lemma_head_letter_not_decimal(t: Seq<char>)
    requires
        t.len() > 0,
        !is_digit_char(t[0]),
        t[0] != '.',
        !is_e_char(t[0]),
    ensures
        !(is_mantissa_text(t.take(first_e(t))) && (first_e(t) == t.len() || is_exp_text(
            t.skip(first_e(t) + 1),
        ))),
{
    lemma_first_e_bounds(t);
    let k = first_e(t);
    let m = t.take(k);
    if k >= 1 {
        lemma_first_dot_bounds(m);
        let dk = first_dot(m);
        if dk == m.len() {
            assert(!is_digit_char(m[0]));
        } else {
            assert(m.take(dk)[0] == t[0]);
            assert(!is_digit_char(m.take(dk)[0]));
        }
    }
}

/// Whether `s` would be read by `f64::from_str`; the text itself is what
/// the library stores.
pub fn is_number(s: &str) -> (r: bool)
    ensures
        r == is_number_text(s@),
{
    let n = s.unicode_len();
    let a: usize = if n > 0 && (s.get_char(0) == '+' || s.get_char(0) == '-') {
        1
    } else {
        0
    };
    let ghost t = if a == 1 {
        s@.drop_first()
    } else {
        s@
    };
    proof {
        assert(t =~= s@.skip(a as int));
    }
    if n == a {
        return false;
    }
    // inf / infinity / nan, in any letter case
    let c0 = s.get_char(a);
    if n - a == 3 && (c0 == 'i' || c0 == 'I') {
        proof {
            lemma_head_letter_not_decimal(t);
        }
        let c1 = s.get_char(a + 1);
        let c2 = s.get_char(a + 2);
        return (c1 == 'n' || c1 == 'N') && (c2 == 'f' || c2 == 'F');
    }
    if n - a == 8 && (c0 == 'i' || c0 == 'I') {
        proof {
            lemma_head_letter_not_decimal(t);
        }
        let c1 = s.get_char(a + 1);
        let c2 = s.get_char(a + 2);
        let c3 = s.get_char(a + 3);
        let c4 = s.get_char(a + 4);
        let c5 = s.get_char(a + 5);
        let c6 = s.get_char(a + 6);
        let c7 = s.get_char(a + 7);
        return (c1 == 'n' || c1 == 'N') && (c2 == 'f' || c2 == 'F') && (c3 == 'i' || c3 == 'I')
            && (c4 == 'n' || c4 == 'N') && (c5 == 'i' || c5 == 'I') && (c6 == 't' || c6 == 'T')
            && (c7 == 'y' || c7 == 'Y');
    }
    if n - a == 3 && (c0 == 'n' || c0 == 'N') {
        proof {
            lemma_head_letter_not_decimal(t);
        }
        let c1 = s.get_char(a + 1);
        let c2 = s.get_char(a + 2);
        return (c1 == 'a' || c1 == 'A') && (c2 == 'n' || c2 == 'N');
    }
    let ghost k = first_e(t);
    let e_pos = find_e(s, a);
    proof {
        lemma_first_e_bounds(t);
        assert(t.take(k) =~= s@.subrange(a as int, e_pos as int));
    }
    // mantissa: s[a .. e_pos]
    let d_pos = find_dot(s, a, e_pos);
    let ghost m = t.take(k);
    let ghost dk = first_dot(m);
    proof {
        lemma_first_dot_bounds(m);
    }
    let mantissa_ok: bool = if d_pos == e_pos {
        assert(dk == m.len());
        proof {
            assert(m =~= s@.subrange(a as int, e_pos as int));
        }
        e_pos > a && all_digits_range(s, a, e_pos)
    } else {
        proof {
            assert(m.take(dk) =~= s@.subrange(a as int, d_pos as int));
            assert(m.skip(dk + 1) =~= s@.subrange(d_pos + 1, e_pos as int));
        }
        let before = all_digits_range(s, a, d_pos);
        let after = all_digits_range(s, d_pos + 1, e_pos);
        before && after && e_pos - a > 1
    };
    if !mantissa_ok {
        return false;
    }
    if e_pos == n {
        assert(k == t.len());
        return true;
    }
    // exponent tail: s[e_pos + 1 .. n]
    let ghost x = t.skip(k + 1);
    proof {
        assert(x =~= s@.skip(e_pos + 1));
    }
    let b: usize = if e_pos + 1 < n
        && (s.get_char(e_pos + 1) == '+' || s.get_char(e_pos + 1) == '-') {
        e_pos + 2
    } else {
        e_pos + 1
    };
    let ghost y = if x.len() > 0 && (x[0] == '+' || x[0] == '-') {
        x.drop_first()
    } else {
        x
    };
    proof {
        assert(y =~= s@.subrange(b as int, n as int));
    }
    b < n && all_digits_range(s, b, n)
}

/// The index of the first ASCII whitespace character in `s`, or
/// `s.len()` if none.
pub open spec fn first_ws(s: Seq<char>) -> int
    decreases s.len(),
{
    if s.len() == 0 {
        0
    } else if is_ws_char(s[0]) {
        0
    } else {
        1 + first_ws(s.drop_first())
    }
}

pub proof fn lemma_first_ws_at(s: Seq<char>, k: int)
    requires
        0 <= k <= s.len(),
        forall|j: int| 0 <= j < k ==> !is_ws_char(s[j]),
        k < s.len() ==> is_ws_char(s[k]),
    ensures
        first_ws(s) == k,
    decreases s.len(),
{
    if s.len() > 0 && k > 0 {
        lemma_first_ws_at(s.drop_first(), k - 1);
    }
}

/// A doubled quotation mark, double or single, stands for one literal
/// double quote inside a quoted property value.
pub open spec fn decode_quoted(s: Seq<char>) -> Seq<char>
    decreases s.len(),
{
    if s.len() == 0 {
        Seq::<char>::empty()
    } else if s.len() >= 2 && ((s[0] == '"' && s[1] == '"') || (s[0] == '\'' && s[1] == '\'')) {
        seq!['"'] + decode_quoted(s.skip(2))
    } else {
        seq![s[0]] + decode_quoted(s.skip(1))
    }
}

/// Decodes the doubled quotation marks of `s` between `from` and `to`.
pub fn decode_quoted_range(s: &str, from: usize, to: usize) -> (r: String)
    requires
        from <= to <= s@.len(),
    ensures
        r@ == decode_quoted(s@.subrange(from as int, to as int)),
{
    let ghost v = s@.subrange(from as int, to as int);
    let mut out = String::new();
    proof {
        assert(v.skip(0) =~= v);
        assert(out@ + decode_quoted(v) =~= decode_quoted(v));
    }
    let mut j: usize = from;
    while j < to
        invariant
            from <= j <= to,
            to <= s@.len(),
            v == s@.subrange(from as int, to as int),
            decode_quoted(v) == out@ + decode_quoted(v.skip(j - from)),
        decreases to - j,
    {
        let c = s.get_char(j);
        proof {
            assert(v.skip(j - from)[0] == s@[j as int]);
        }
        if j + 1 < to {
            let c1 = s.get_char(j + 1);
            proof {
                assert(v.skip(j - from)[1] == s@[j + 1]);
            }
            if (c == '"' && c1 == '"') || (c == '\'' && c1 == '\'') {
                push_char(&mut out, '"');
                proof {
                    assert(v.skip(j - from).skip(2) =~= v.skip(j + 2 - from));
                    assert(decode_quoted(v.skip(j - from)) == seq!['"'] + decode_quoted(
                        v.skip(j + 2 - from),
                    ));
                }
                j = j + 2;
                continue ;
            }
        }
        push_char(&mut out, c);
        proof {
            assert(v.skip(j - from).skip(1) =~= v.skip(j + 1 - from));
            assert(decode_quoted(v.skip(j - from)) == seq![s@[j as int]] + decode_quoted(
                v.skip(j + 1 - from),
            ));
        }
        j = j + 1;
    }
    proof {
        assert(v.skip(to - from) =~= Seq::<char>::empty());
        assert(out@ =~= out@ + decode_quoted(v.skip(to - from)));
    }
    out
}

/// A hexadecimal digit.
pub open spec fn is_hex_char(c: char) -> bool {
    is_digit_char(c) || ('a' <= c && c <= 'f') || ('A' <= c && c <= 'F')
}

/// The value of one hexadecimal digit.
pub open spec fn hex_val(c: char) -> int {
    if is_digit_char(c) {
        c as int - '0' as int
    } else if 'a' <= c && c <= 'f' {
        c as int - 'a' as int + 10
    } else {
        c as int - 'A' as int + 10
    }
}

/// The hexadecimal digits of `s`, every other character dropped.
pub open spec fn hex_digits_of(s: Seq<char>) -> Seq<char>
    decreases s.len(),
{
    if s.len() == 0 {
        Seq::<char>::empty()
    } else if is_hex_char(s.last()) {
        hex_digits_of(s.drop_last()).push(s.last())
    } else {
        hex_digits_of(s.drop_last())
    }
}

/// The bytes that a run of hexadecimal digits denotes, two digits each,
/// the first digit high.
pub open spec fn hex_bytes(d: Seq<char>) -> Seq<u8>
    decreases d.len(),
{
    if d.len() < 2 {
        Seq::<u8>::empty()
    } else {
        hex_bytes(d.drop_last().drop_last()).push(
            (hex_val(d[d.len() - 2]) * 16 + hex_val(d[d.len() - 1])) as u8,
        )
    }
}

/// Character-for-character string equality, stated over the views.
pub fn str_eq(a: &str, b: &str) -> (r: bool)
    ensures
        r == (a@ == b@),
{
    let an = a.unicode_len();
    let bn = b.unicode_len();
    if an != bn {
        return false;
    }
    let mut i: usize = 0;
    while i < an
        invariant
            i <= an,
            an == a@.len(),
            an == b@.len(),
            forall|j: int| 0 <= j < i ==> a@[j] == b@[j],
        decreases an - i,
    {
        if a.get_char(i) != b.get_char(i) {
            return false;
        }
        i = i + 1;
    }
    proof {
        assert(a@ =~= b@);
    }
    true
}

} // verus!
