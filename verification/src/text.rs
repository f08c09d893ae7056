//! Character-level helpers shared by the parsers and the renderers.
//!
//! Everything here works on the `char` sequence of a string (its view), so
//! that the grammars and renderers above can be stated as functions on
//! `Seq<char>`.

use vstd::prelude::*;

verus! {

pub assume_specification[ String::push ](s: &mut String, ch: char)
    ensures
        final(s)@ == old(s)@.push(ch),
;

/// Whether `c` has the Unicode `White_Space` property (`char::is_whitespace`,
/// and the regex class `\s`): tab to carriage return, space, next line,
/// no-break space, ogham space mark, en quad to hair space, line and
/// paragraph separators, narrow no-break space, medium mathematical space,
/// and ideographic space.
pub open spec fn std_white_space(c: char) -> bool {
    let u = c as u32;
    ||| 0x09 <= u <= 0x0D
    ||| u == 0x20
    ||| u == 0x85
    ||| u == 0xA0
    ||| u == 0x1680
    ||| 0x2000 <= u <= 0x200A
    ||| u == 0x2028
    ||| u == 0x2029
    ||| u == 0x202F
    ||| u == 0x205F
    ||| u == 0x3000
}

/// The ASCII members of the `White_Space` property.
pub open spec fn ascii_white_space(c: char) -> bool {
    c == ' ' || c == '\t' || c == '\n' || c == '\x0B' || c == '\x0C' || c == '\r'
}

/// `char::is_whitespace`: true exactly for the characters with the Unicode
/// `White_Space` property.
pub assume_specification[ char::is_whitespace ](c: char) -> (b: bool)
    ensures
        b == std_white_space(c),
        (c as u32) < 128 ==> (b == ascii_white_space(c)),
;

/// The characters of `s`, in order.
pub fn chars_of(s: &str) -> (v: Vec<char>)
    ensures
        v@ == s@,
{
    broadcast use vstd::string::group_string_axioms;
    let mut v: Vec<char> = Vec::new();
    for c in it: s.chars()
        invariant
            v@ == it.seq().take(it.index()),
    {
        v.push(c);
    }
    v
}

/// A string holding `s[from..to]`.
pub fn string_of(s: &Vec<char>, from: usize, to: usize) -> (r: String)
    requires
        from <= to <= s.len(),
    ensures
        r@ == s@.subrange(from as int, to as int),
{
    let mut r = String::new();
    let mut i = from;
    while i < to
        invariant
            from <= i <= to <= s.len(),
            r@ == s@.subrange(from as int, i as int),
        decreases to - i,
    {
        r.push(s[i]);
        i = i + 1;
        assert(r@ =~= s@.subrange(from as int, i as int));
    }
    r
}

/// A string holding all of `s`.
pub fn string_of_all(s: &Vec<char>) -> (r: String)
    ensures
        r@ == s@,
{
    let r = string_of(s, 0, s.len());
    assert(s@.subrange(0, s@.len() as int) =~= s@);
    r
}

/// Appends the characters `t[from..to]` to `s`.
pub fn push_chars(s: &mut String, t: &Vec<char>, from: usize, to: usize)
    requires
        from <= to <= t.len(),
    ensures
        final(s)@ == old(s)@ + t@.subrange(from as int, to as int),
{
    let ghost start = s@;
    let mut i = from;
    while i < to
        invariant
            from <= i <= to <= t.len(),
            s@ == start + t@.subrange(from as int, i as int),
        decreases to - i,
    {
        s.push(t[i]);
        i = i + 1;
        assert(s@ =~= start + t@.subrange(from as int, i as int));
    }
}

// ---------------------------------------------------------------------------
// Literal matching

/// `lit` occurs in `s` at index `i`.
pub open spec fn has_at(s: Seq<char>, i: int, lit: Seq<char>) -> bool {
    0 <= i && i + lit.len() <= s.len() && s.subrange(i, i + lit.len()) == lit
}

/// `s` begins with `lit`.
pub open spec fn starts_with(s: Seq<char>, lit: Seq<char>) -> bool {
    has_at(s, 0, lit)
}

/// `s` ends with `lit`.
pub open spec fn ends_with(s: Seq<char>, lit: Seq<char>) -> bool {
    has_at(s, s.len() - lit.len(), lit)
}

/// Whether `lit` occurs at index `i` of `s`.
pub fn lit_at(s: &Vec<char>, i: usize, lit: &str) -> (b: bool)
    ensures
        b == has_at(s@, i as int, lit@),
{
    let l = chars_of(lit);
    if i > s.len() || l.len() > s.len() - i {
        return false;
    }
    let mut k: usize = 0;
    while k < l.len()
        invariant
            k <= l.len(),
            l@ == lit@,
            i + l.len() <= s.len(),
            forall|j: int| 0 <= j < k ==> #[trigger] s@[i + j] == l@[j],
        decreases l.len() - k,
    {
        if s[i + k] != l[k] {
            proof {
                if has_at(s@, i as int, l@) {
                    let sub = s@.subrange(i as int, i + l@.len());
                    assert(sub == l@);
                    assert(sub[k as int] == l@[k as int]);
                    assert(s@[i + k] == sub[k as int]);
                    assert(false);
                }
            }
            return false;
        }
        k = k + 1;
    }
    assert forall|j: int| 0 <= j < l@.len() implies s@.subrange(i as int, i + l@.len())[j] == l@[j] by {
        assert(s@[i + j] == l@[j]);
    }
    assert(s@.subrange(i as int, i + l@.len()) =~= l@);
    true
}

/// Lower-cases an ASCII letter; every other character is left as it is.
pub open spec fn ascii_lower(c: char) -> char {
    if 'A' <= c && c <= 'Z' {
        ((c as u32) + 32) as char
    } else {
        c
    }
}

fn ascii_lower_exec(c: char) -> (r: char)
    ensures
        r == ascii_lower(c),
{
    if 'A' <= c && c <= 'Z' {
        ((c as u8) + 32) as char
    } else {
        c
    }
}

/// `lit` occurs at index `i` of `s` when ASCII letters are compared without case.
pub open spec fn has_at_ascii_ci(s: Seq<char>, i: int, lit: Seq<char>) -> bool {
    &&& 0 <= i
    &&& i + lit.len() <= s.len()
    &&& forall|k: int| 0 <= k < lit.len() ==> ascii_lower(#[trigger] s[i + k]) == ascii_lower(lit[k])
}

/// Whether `lit` occurs at index `i` of `s`, ignoring the case of ASCII letters.
pub fn lit_at_ascii_ci(s: &Vec<char>, i: usize, lit: &str) -> (b: bool)
    ensures
        b == has_at_ascii_ci(s@, i as int, lit@),
{
    let l = chars_of(lit);
    if i > s.len() || l.len() > s.len() - i {
        return false;
    }
    let mut k: usize = 0;
    while k < l.len()
        invariant
            k <= l.len(),
            l@ == lit@,
            i + l.len() <= s.len(),
            forall|j: int| 0 <= j < k ==> ascii_lower(#[trigger] s@[i + j]) == ascii_lower(l@[j]),
        decreases l.len() - k,
    {
        if ascii_lower_exec(s[i + k]) != ascii_lower_exec(l[k]) {
            proof {
                if has_at_ascii_ci(s@, i as int, l@) {
                    assert(ascii_lower(s@[i + k]) == ascii_lower(l@[k as int]));
                }
            }
            return false;
        }
        k = k + 1;
    }
    true
}


// ---------------------------------------------------------------------------
// Trimming (`str::trim`, which removes `White_Space` from both ends)

/// The first index at or after `i` that does not hold white space.
pub open spec fn trim_start_index(s: Seq<char>, i: int) -> int
    decreases s.len() - i,
{
    if 0 <= i < s.len() && std_white_space(s[i]) {
        trim_start_index(s, i + 1)
    } else {
        i
    }
}

/// The end of `s[..j]` once trailing white space is removed.
pub open spec fn trim_end_index(s: Seq<char>, j: int) -> int
    decreases j,
{
    if 0 < j <= s.len() && std_white_space(s[j - 1]) {
        trim_end_index(s, j - 1)
    } else {
        j
    }
}

/// `s` without leading and trailing white space.
pub open spec fn trim(s: Seq<char>) -> Seq<char> {
    let a = trim_start_index(s, 0);
    let b = trim_end_index(s, s.len() as int);
    if a < b {
        s.subrange(a, b)
    } else {
        Seq::empty()
    }
}

pub proof fn lemma_trim_start_bounds(s: Seq<char>, i: int)
    requires
        0 <= i <= s.len(),
    ensures
        i <= trim_start_index(s, i) <= s.len(),
        trim_start_index(s, i) < s.len() ==> !std_white_space(s[trim_start_index(s, i)]),
        forall|k: int| i <= k < trim_start_index(s, i) ==> std_white_space(#[trigger] s[k]),
    decreases s.len() - i,
{
    if i < s.len() && std_white_space(s[i]) {
        lemma_trim_start_bounds(s, i + 1);
    }
}

pub proof fn lemma_trim_end_bounds(s: Seq<char>, j: int)
    requires
        0 <= j <= s.len(),
    ensures
        0 <= trim_end_index(s, j) <= j,
        trim_end_index(s, j) > 0 ==> !std_white_space(s[trim_end_index(s, j) - 1]),
        forall|k: int| trim_end_index(s, j) <= k < j ==> std_white_space(#[trigger] s[k]),
    decreases j,
{
    if 0 < j && std_white_space(s[j - 1]) {
        lemma_trim_end_bounds(s, j - 1);
    }
}

/// The bounds `(a, b)` of `s[from..to]` once white space is trimmed from both ends.
pub fn trim_bounds(s: &Vec<char>, from: usize, to: usize) -> (r: (usize, usize))
    requires
        from <= to <= s.len(),
    ensures
        from <= r.0 <= r.1 <= to,
        s@.subrange(r.0 as int, r.1 as int) == trim(s@.subrange(from as int, to as int)),
{
    let ghost t = s@.subrange(from as int, to as int);
    let mut a = from;
    while a < to && s[a].is_whitespace()
        invariant
            from <= a <= to <= s.len(),
            t == s@.subrange(from as int, to as int),
            trim_start_index(t, (a - from) as int) == trim_start_index(t, 0),
        decreases to - a,
    {
        assert(t[(a - from) as int] == s@[a as int]);
        a = a + 1;
    }
    proof {
        if a < to {
            assert(t[(a - from) as int] == s@[a as int]);
        }
    }
    let mut b = to;
    while b > a && s[b - 1].is_whitespace()
        invariant
            from <= a <= b <= to <= s.len(),
            t == s@.subrange(from as int, to as int),
            trim_end_index(t, (b - from) as int) == trim_end_index(t, t.len() as int),
        decreases b,
    {
        assert(t[(b - from - 1) as int] == s@[b - 1]);
        b = b - 1;
    }
    proof {
        lemma_trim_start_bounds(t, 0);
        lemma_trim_end_bounds(t, t.len() as int);
        let ta = trim_start_index(t, 0);
        if b > a {
            assert(t[(b - from - 1) as int] == s@[b - 1]);
            // b is the trimmed end: the character before it is not white space
            assert(trim_end_index(t, (b - from) as int) == (b - from) as int);
            assert(s@.subrange(a as int, b as int) =~= t.subrange(ta, (b - from) as int));
        } else {
            // everything from a on is white space, so the trimmed text is empty
            lemma_trim_end_bounds(t, (b - from) as int);
            assert(s@.subrange(a as int, b as int) =~= Seq::<char>::empty());
        }
    }
    (a, b)
}

/// `s` with white space trimmed from both ends.
pub fn trimmed(s: &str) -> (r: String)
    ensures
        r@ == trim(s@),
{
    let v = chars_of(s);
    let (a, b) = trim_bounds(&v, 0, v.len());
    assert(v@.subrange(0, v@.len() as int) =~= v@);
    string_of(&v, a, b)
}

// ---------------------------------------------------------------------------
// Lines (`str::lines`)

/// The index of the first line feed at or after `i`, or the length of `s`.
pub open spec fn next_line_feed(s: Seq<char>, i: int) -> int
    decreases s.len() - i,
{
    if i < 0 || i >= s.len() {
        s.len() as int
    } else if s[i] == '\n' {
        i
    } else {
        next_line_feed(s, i + 1)
    }
}

/// A line taken up to a line feed loses a carriage return that ends it.
pub open spec fn strip_cr(l: Seq<char>) -> Seq<char> {
    if l.len() > 0 && l.last() == '\r' {
        l.drop_last()
    } else {
        l
    }
}

/// The lines of `s[i..]`: split at each `\n`, a `\r` before the `\n` dropped,
/// and no empty line after a final `\n`.
pub open spec fn lines_from(s: Seq<char>, i: int) -> Seq<Seq<char>>
    decreases s.len() - i,
{
    if i < 0 || i >= s.len() {
        Seq::empty()
    } else {
        let e = next_line_feed(s, i);
        proof {
            lemma_next_line_feed(s, i);
        }
        if e < s.len() {
            seq![strip_cr(s.subrange(i, e))] + lines_from(s, e + 1)
        } else {
            seq![s.subrange(i, e)]
        }
    }
}

/// The lines of `s`, as `str::lines` yields them.
pub open spec fn lines(s: Seq<char>) -> Seq<Seq<char>> {
    lines_from(s, 0)
}

pub proof fn lemma_next_line_feed(s: Seq<char>, i: int)
    requires
        0 <= i <= s.len(),
    ensures
        i <= next_line_feed(s, i) <= s.len(),
        next_line_feed(s, i) < s.len() ==> s[next_line_feed(s, i)] == '\n',
        forall|k: int| i <= k < next_line_feed(s, i) ==> #[trigger] s[k] != '\n',
    decreases s.len() - i,
{
    if i < s.len() && s[i] != '\n' {
        lemma_next_line_feed(s, i + 1);
    }
}

/// The bounds `(start, end)` of every line of `s`, as `str::lines` splits it.
pub fn line_bounds(s: &Vec<char>) -> (r: Vec<(usize, usize)>)
    ensures
        r@.len() == lines(s@).len(),
        forall|k: int|
            0 <= k < r@.len() ==> {
                &&& (#[trigger] r@[k]).0 <= r@[k].1 <= s@.len()
                &&& s@.subrange(r@[k].0 as int, r@[k].1 as int) == lines(s@)[k]
            },
{
    let mut r: Vec<(usize, usize)> = Vec::new();
    let mut i: usize = 0;
    while i < s.len()
        invariant
            i <= s.len(),
            lines(s@) == r@.map_values(|p: (usize, usize)| s@.subrange(p.0 as int, p.1 as int))
                + lines_from(s@, i as int),
            forall|k: int| 0 <= k < r@.len() ==> (#[trigger] r@[k]).0 <= r@[k].1 <= s@.len(),
        decreases s.len() - i,
    {
        let start = i;
        let mut e = i;
        while e < s.len() && s[e] != '\n'
            invariant
                start <= e <= s.len(),
                start < s.len(),
                next_line_feed(s@, e as int) == next_line_feed(s@, start as int),
            decreases s.len() - e,
        {
            e = e + 1;
        }
        let ghost old_r = r@;
        if e < s.len() {
            let mut end = e;
            if end > start && s[end - 1] == '\r' {
                end = end - 1;
            }
            assert(s@.subrange(start as int, end as int) == strip_cr(s@.subrange(start as int, e as int)));
            r.push((start, end));
            i = e + 1;
        } else {
            r.push((start, e));
            i = e;
        }
        assert(r@.map_values(|p: (usize, usize)| s@.subrange(p.0 as int, p.1 as int))
            =~= old_r.map_values(|p: (usize, usize)| s@.subrange(p.0 as int, p.1 as int))
            + seq![s@.subrange(r@.last().0 as int, r@.last().1 as int)]);
        assert(lines(s@) =~= r@.map_values(|p: (usize, usize)| s@.subrange(p.0 as int, p.1 as int))
            + lines_from(s@, i as int));
    }
    assert(lines(s@) =~= r@.map_values(|p: (usize, usize)| s@.subrange(p.0 as int, p.1 as int)));
    assert forall|k: int| 0 <= k < r@.len() implies
        s@.subrange(r@[k].0 as int, r@[k].1 as int) == lines(s@)[k] by {
    }
    r
}


// ---------------------------------------------------------------------------
// Decimal numbers, as the integer `FromStr` impls and `Display` spell them

pub open spec fn is_ascii_digit(c: char) -> bool {
    '0' <= c && c <= '9'
}

pub open spec fn digit_value(c: char) -> nat {
    ((c as u32) - ('0' as u32)) as nat
}

/// The value of a run of decimal digits.
pub open spec fn digits_value(s: Seq<char>) -> nat
    decreases s.len(),
{
    if s.len() == 0 {
        0
    } else {
        digits_value(s.drop_last()) * 10 + digit_value(s.last())
    }
}

pub open spec fn all_ascii_digits(s: Seq<char>) -> bool {
    forall|i: int| 0 <= i < s.len() ==> is_ascii_digit(#[trigger] s[i])
}

/// What an unsigned `from_str` accepts: an optional `+`, then at least one
/// ASCII digit, with a value no larger than `max`.
pub open spec fn parse_unsigned(s: Seq<char>, max: nat) -> Option<nat> {
    let d = if s.len() > 0 && s[0] == '+' {
        s.drop_first()
    } else {
        s
    };
    if d.len() > 0 && all_ascii_digits(d) && digits_value(d) <= max {
        Some(digits_value(d))
    } else {
        None
    }
}

/// What a signed `from_str` accepts: an optional sign, then at least one ASCII
/// digit, with a value in `[-min_magnitude, max]`.
pub open spec fn parse_signed(s: Seq<char>, min_magnitude: nat, max: nat) -> Option<int> {
    if s.len() > 0 && s[0] == '-' {
        let d = s.drop_first();
        if d.len() > 0 && all_ascii_digits(d) && digits_value(d) <= min_magnitude {
            Some(-(digits_value(d) as int))
        } else {
            None
        }
    } else {
        match parse_unsigned(s, max) {
            Some(v) => Some(v as int),
            None => None,
        }
    }
}

pub open spec fn parse_u64_spec(s: Seq<char>) -> Option<u64> {
    match parse_unsigned(s, u64::MAX as nat) {
        Some(v) => Some(v as u64),
        None => None,
    }
}

pub open spec fn parse_u32_spec(s: Seq<char>) -> Option<u32> {
    match parse_unsigned(s, u32::MAX as nat) {
        Some(v) => Some(v as u32),
        None => None,
    }
}

pub open spec fn parse_i32_spec(s: Seq<char>) -> Option<i32> {
    match parse_signed(s, 0x8000_0000nat, i32::MAX as nat) {
        Some(v) => Some(v as i32),
        None => None,
    }
}

pub open spec fn parse_i64_spec(s: Seq<char>) -> Option<i64> {
    match parse_signed(s, 0x8000_0000_0000_0000nat, i64::MAX as nat) {
        Some(v) => Some(v as i64),
        None => None,
    }
}

pub proof fn lemma_digits_value_prefix(s: Seq<char>, k: int)
    requires
        0 <= k <= s.len(),
        all_ascii_digits(s),
    ensures
        digits_value(s.take(k)) <= digits_value(s),
    decreases s.len() - k,
{
    if k < s.len() {
        lemma_digits_value_prefix(s, k + 1);
        assert(s.take(k + 1).drop_last() =~= s.take(k));
    } else {
        assert(s.take(k) =~= s);
    }
}

/// The value of the ASCII digits `s[from..to]`, or `None` when a character is
/// not a digit or the value exceeds `max`.
pub fn digits_upto(s: &Vec<char>, from: usize, to: usize, max: u64) -> (r: Option<u64>)
    requires
        from <= to <= s.len(),
    ensures
        ({
            let d = s@.subrange(from as int, to as int);
            match r {
                Some(v) => all_ascii_digits(d) && digits_value(d) <= max && v == digits_value(d),
                None => !all_ascii_digits(d) || digits_value(d) > max,
            }
        }),
{
    let ghost d = s@.subrange(from as int, to as int);
    let mut acc: u64 = 0;
    let mut i = from;
    while i < to
        invariant
            from <= i <= to <= s.len(),
            d == s@.subrange(from as int, to as int),
            all_ascii_digits(d.take(i - from)),
            acc == digits_value(d.take(i - from)),
            acc <= max,
        decreases to - i,
    {
        let c = s[i];
        assert(d[i - from] == c);
        if !('0' <= c && c <= '9') {
            return None;
        }
        let dv = (c as u32 - '0' as u32) as u64;
        assert(d.take(i - from + 1).drop_last() =~= d.take(i - from));
        if dv > max || acc > (max - dv) / 10 {
            proof {
                if all_ascii_digits(d) {
                    lemma_digits_value_prefix(d, i - from + 1);
                    assert(digits_value(d.take(i - from + 1)) == acc * 10 + dv);
                    assert(acc * 10 + dv > max) by (nonlinear_arith)
                        requires
                            dv > max || acc > (max - dv) / 10,
                            acc >= 0,
                    ;
                }
            }
            return None;
        }
        assert(acc * 10 + dv <= max) by (nonlinear_arith)
            requires
                acc <= (max - dv) / 10,
                dv <= 9,
                dv <= max,
        ;
        acc = acc * 10 + dv;
        i = i + 1;
        assert forall|j: int| 0 <= j < i - from implies is_ascii_digit(#[trigger] d.take(i - from)[j]) by {
            if j < i - from - 1 {
                assert(d.take(i - from)[j] == d.take(i - from - 1)[j]);
            }
        }
    }
    assert(d.take(to - from) =~= d);
    Some(acc)
}

/// `u64::from_str` on `s[from..to]`.
pub fn parse_u64(s: &Vec<char>, from: usize, to: usize) -> (r: Option<u64>)
    requires
        from <= to <= s.len(),
    ensures
        r == parse_u64_spec(s@.subrange(from as int, to as int)),
{
    let ghost t = s@.subrange(from as int, to as int);
    let mut a = from;
    if a < to && s[a] == '+' {
        a = a + 1;
        assert(t.drop_first() =~= s@.subrange(a as int, to as int));
    } else {
        assert(t =~= s@.subrange(a as int, to as int));
    }
    if a == to {
        return None;
    }
    digits_upto(s, a, to, u64::MAX)
}

/// `u32::from_str` on `s[from..to]`.
pub fn parse_u32(s: &Vec<char>, from: usize, to: usize) -> (r: Option<u32>)
    requires
        from <= to <= s.len(),
    ensures
        r == parse_u32_spec(s@.subrange(from as int, to as int)),
{
    let ghost t = s@.subrange(from as int, to as int);
    let mut a = from;
    if a < to && s[a] == '+' {
        a = a + 1;
        assert(t.drop_first() =~= s@.subrange(a as int, to as int));
    } else {
        assert(t =~= s@.subrange(a as int, to as int));
    }
    if a == to {
        return None;
    }
    match digits_upto(s, a, to, u32::MAX as u64) {
        Some(v) => Some(v as u32),
        None => None,
    }
}

/// A signed `from_str` on `s[from..to]`, for magnitudes up to `min_magnitude`
/// below zero and `max` above.
fn parse_signed_exec(s: &Vec<char>, from: usize, to: usize, min_magnitude: u64, max: u64) -> (r: Option<i128>)
    requires
        from <= to <= s.len(),
    ensures
        match parse_signed(s@.subrange(from as int, to as int), min_magnitude as nat, max as nat) {
            Some(v) => r == Some(v as i128),
            None => r is None,
        },
{
    let ghost t = s@.subrange(from as int, to as int);
    if from < to && s[from] == '-' {
        assert(t.drop_first() =~= s@.subrange(from + 1, to as int));
        if from + 1 == to {
            return None;
        }
        match digits_upto(s, from + 1, to, min_magnitude) {
            Some(v) => Some(-(v as i128)),
            None => None,
        }
    } else {
        let mut a = from;
        if a < to && s[a] == '+' {
            a = a + 1;
            assert(t.drop_first() =~= s@.subrange(a as int, to as int));
        } else {
            assert(t =~= s@.subrange(a as int, to as int));
        }
        if a == to {
            return None;
        }
        match digits_upto(s, a, to, max) {
            Some(v) => Some(v as i128),
            None => None,
        }
    }
}

/// `i32::from_str` on `s[from..to]`.
pub fn parse_i32(s: &Vec<char>, from: usize, to: usize) -> (r: Option<i32>)
    requires
        from <= to <= s.len(),
    ensures
        r == parse_i32_spec(s@.subrange(from as int, to as int)),
{
    match parse_signed_exec(s, from, to, 0x8000_0000, i32::MAX as u64) {
        Some(v) => Some(v as i32),
        None => None,
    }
}

/// `i64::from_str` on `s[from..to]`.
pub fn parse_i64(s: &Vec<char>, from: usize, to: usize) -> (r: Option<i64>)
    requires
        from <= to <= s.len(),
    ensures
        r == parse_i64_spec(s@.subrange(from as int, to as int)),
{
    match parse_signed_exec(s, from, to, 0x8000_0000_0000_0000, i64::MAX as u64) {
        Some(v) => Some(v as i64),
        None => None,
    }
}

/// The decimal digit for `d < 10`.
pub open spec fn digit_char(d: nat) -> char {
    ((d + ('0' as u32)) as u32) as char
}

/// The decimal spelling of `n`, as `Display` writes it.
pub open spec fn decimal(n: nat) -> Seq<char>
    decreases n,
{
    if n < 10 {
        seq![digit_char(n)]
    } else {
        decimal(n / 10).push(digit_char(n % 10))
    }
}

/// The decimal spelling of a signed `n`.
pub open spec fn decimal_int(n: int) -> Seq<char> {
    if n < 0 {
        seq!['-'] + decimal((-n) as nat)
    } else {
        decimal(n as nat)
    }
}

/// Appends the decimal spelling of `n` to `s`.
pub fn push_decimal(s: &mut String, n: u128)
    ensures
        final(s)@ == old(s)@ + decimal(n as nat),
    decreases n,
{
    if n >= 10 {
        push_decimal(s, n / 10);
    }
    let d = (n % 10) as u8;
    s.push((48u8 + d) as char);
    proof {
        assert(((d as nat + ('0' as u32)) as u32) as char == (48u8 + d) as char);
        if n < 10 {
            assert(decimal(n as nat) =~= seq![digit_char(n as nat)]);
        }
    }
    assert(s@ =~= old(s)@ + decimal(n as nat));
}

/// Appends the decimal spelling of a signed `n` to `s`.
pub fn push_decimal_signed(s: &mut String, n: i64)
    ensures
        final(s)@ == old(s)@ + decimal_int(n as int),
{
    if n < 0 {
        s.push('-');
        let m: u128 = if n == i64::MIN {
            0x8000_0000_0000_0000
        } else {
            (-n) as u128
        };
        push_decimal(s, m);
        assert(s@ =~= old(s)@ + decimal_int(n as int));
    } else {
        push_decimal(s, n as u128);
    }
}

/// The decimal spelling of `n`.
pub fn decimal_string(n: u64) -> (r: String)
    ensures
        r@ == decimal(n as nat),
{
    let mut r = String::new();
    push_decimal(&mut r, n as u128);
    assert(r@ =~= decimal(n as nat));
    r
}

// ---------------------------------------------------------------------------
// Padding, as `{:<w}` and `{:>w}` apply it to strings (counting characters)

pub open spec fn spaces(n: nat) -> Seq<char> {
    Seq::new(n, |i: int| ' ')
}

/// `s` followed by spaces up to `width` characters (`{:<width}`).
pub open spec fn pad_end(s: Seq<char>, width: nat) -> Seq<char> {
    if s.len() >= width {
        s
    } else {
        s + spaces((width - s.len()) as nat)
    }
}

/// Spaces up to `width` characters, then `s` (`{:>width}`).
pub open spec fn pad_start(s: Seq<char>, width: nat) -> Seq<char> {
    if s.len() >= width {
        s
    } else {
        spaces((width - s.len()) as nat) + s
    }
}

/// Appends `n` spaces to `s`.
pub fn push_spaces(s: &mut String, n: usize)
    ensures
        final(s)@ == old(s)@ + spaces(n as nat),
{
    let ghost start = s@;
    let mut i: usize = 0;
    while i < n
        invariant
            i <= n,
            s@ == start + spaces(i as nat),
        decreases n - i,
    {
        s.push(' ');
        i = i + 1;
        assert(s@ =~= start + spaces(i as nat));
    }
}

/// Appends `t` to `s`, padded with spaces after it to `width` characters.
pub fn push_padded_end(s: &mut String, t: &String, width: usize)
    ensures
        final(s)@ == old(s)@ + pad_end(t@, width as nat),
{
    let n = t.as_str().unicode_len();
    s.append(t.as_str());
    if n < width {
        push_spaces(s, width - n);
    }
    assert(s@ =~= old(s)@ + pad_end(t@, width as nat));
}

/// Appends `t` to `s`, padded with spaces before it to `width` characters.
pub fn push_padded_start(s: &mut String, t: &String, width: usize)
    ensures
        final(s)@ == old(s)@ + pad_start(t@, width as nat),
{
    let n = t.as_str().unicode_len();
    if n < width {
        push_spaces(s, width - n);
    }
    s.append(t.as_str());
    assert(s@ =~= old(s)@ + pad_start(t@, width as nat));
}


// ---------------------------------------------------------------------------
// Binary sizes with one decimal place (`{:.1}` of a `u64` converted to `f64`)

/// How far `x` must be shifted right to fit in the 53 bits of an `f64` significand.
pub open spec fn significand_shift(x: nat) -> nat
    decreases x,
{
    if x < 0x20_0000_0000_0000 {
        0
    } else {
        1 + significand_shift(x / 2)
    }
}

/// `x` rounded to the nearest number with at most 53 significant bits, ties
/// going to the even significand: the value that `x as f64` holds.
pub open spec fn f64_value(x: nat) -> nat {
    let s = significand_shift(x);
    if s == 0 {
        x
    } else {
        let p = vstd::arithmetic::power2::pow2(s);
        let q = x / p;
        let r = x % p;
        if r > p / 2 || (r == p / 2 && q % 2 == 1) {
            (q + 1) * p
        } else {
            q * p
        }
    }
}

/// `n / d` rounded to the nearest integer, ties going to the even one.
pub open spec fn div_round_half_even(n: nat, d: nat) -> nat {
    let q = n / d;
    let r = n % d;
    if 2 * r > d || (2 * r == d && q % 2 == 1) {
        q + 1
    } else {
        q
    }
}

/// `x / unit` with one decimal place, as `{:.1}` prints `x as f64 / unit as f64`
/// for a power-of-two `unit`.
pub open spec fn one_decimal(x: nat, unit: nat) -> Seq<char> {
    let tenths = div_round_half_even(f64_value(x) * 10, unit);
    decimal(tenths / 10) + seq!['.'] + seq![digit_char(tenths % 10)]
}

/// `kb` in MiB with one decimal place and the unit: `"{:.1} MiB"` of `kb as f64 / 1024.0`.
pub open spec fn mib_text(kb: nat) -> Seq<char> {
    one_decimal(kb, 1024) + " MiB"@
}

proof fn lemma_shift_step(x: nat, k: nat)
    ensures
        (x / vstd::arithmetic::power2::pow2(k)) / 2 == x / vstd::arithmetic::power2::pow2(k + 1),
{
    vstd::arithmetic::power2::lemma_pow2_pos(k);
    vstd::arithmetic::power2::lemma_pow2_adds(k, 1);
    vstd::arithmetic::power2::lemma2_to64();
    vstd::arithmetic::div_mod::lemma_div_denominator(
        x as int,
        vstd::arithmetic::power2::pow2(k) as int,
        2,
    );
    assert(vstd::arithmetic::power2::pow2(k) * 2 == vstd::arithmetic::power2::pow2(k + 1));
}

/// `x as f64`, as an exact integer.
fn f64_value_exec(x: u64) -> (r: u128)
    ensures
        r == f64_value(x as nat),
        r <= 0x1_0000_0000_0000_1000,
{
    let mut y: u64 = x;
    let mut k: u32 = 0;
    let mut p: u128 = 1;
    proof {
        vstd::arithmetic::power2::lemma2_to64();
        assert(x as nat / 1 == x as nat);
    }
    while y >= 0x20_0000_0000_0000
        invariant
            k <= 11,
            p == vstd::arithmetic::power2::pow2(k as nat),
            y == x as nat / (p as nat),
            y < 0x20_0000_0000_0000 ==> significand_shift(y as nat) == 0,
            significand_shift(x as nat) == k + significand_shift(y as nat),
            p <= 0x800,
            k == 0 ==> y == x,
        decreases y,
    {
        proof {
            lemma_shift_step(x as nat, k as nat);
            vstd::arithmetic::power2::lemma_pow2_adds(k as nat, 1);
            vstd::arithmetic::power2::lemma2_to64();
            if k >= 11 {
                // 2^64 / 2^11 == 2^53, so y would already be small
                assert(x as nat / (p as nat) < 0x20_0000_0000_0000) by (nonlinear_arith)
                    requires
                        p == 0x800,
                        x < 0x1_0000_0000_0000_0000,
                ;
            }
        }
        y = y / 2;
        k = k + 1;
        p = p * 2;
    }
    if k == 0 {
        return x as u128;
    }
    let q = x as u128 / p;
    let r = x as u128 % p;
    let half = p / 2;
    proof {
        assert(q == x as nat / (p as nat));
        vstd::arithmetic::div_mod::lemma_fundamental_div_mod(x as int, p as int);
        assert(q * p + r == x);
        assert(q <= x) by (nonlinear_arith)
            requires
                q == x as nat / (p as nat),
                p >= 1,
        ;
    }
    if r > half || (r == half && q % 2 == 1) {
        assert((q + 1) * p <= 0x1_0000_0000_0000_1000) by (nonlinear_arith)
            requires
                q <= x,
                p <= 0x800,
                x < 0x1_0000_0000_0000_0000,
                q * p + r == x,
                r >= 0,
        ;
        (q + 1) * p
    } else {
        assert(q * p <= x) by (nonlinear_arith)
            requires
                q * p + r == x,
                r >= 0,
        ;
        q * p
    }
}

/// Appends `x / unit` with one decimal place (`{:.1}`), for a power-of-two `unit`.
pub fn push_one_decimal(s: &mut String, x: u64, unit: u128)
    requires
        unit > 0,
        unit <= 0x100000,
    ensures
        final(s)@ == old(s)@ + one_decimal(x as nat, unit as nat),
{
    let v = f64_value_exec(x);
    let n = v * 10;
    let q = n / unit;
    let r = n % unit;
    let tenths = if 2 * r > unit || (2 * r == unit && q % 2 == 1) {
        q + 1
    } else {
        q
    };
    assert(tenths == div_round_half_even(f64_value(x as nat) * 10, unit as nat));
    let ghost start = s@;
    push_decimal(s, tenths / 10);
    s.push('.');
    let d = (tenths % 10) as u8;
    s.push((48u8 + d) as char);
    proof {
        assert(((d as nat + ('0' as u32)) as u32) as char == (48u8 + d) as char);
    }
    assert(s@ =~= start + one_decimal(x as nat, unit as nat));
}

/// Appends `kb` in MiB with one decimal place and the unit (`"{:.1} MiB"`).
pub fn push_mib(s: &mut String, kb: u64)
    ensures
        final(s)@ == old(s)@ + mib_text(kb as nat),
{
    let ghost start = s@;
    push_one_decimal(s, kb, 1024);
    s.append(" MiB");
    assert(s@ =~= start + mib_text(kb as nat));
}


// ---------------------------------------------------------------------------
// Searching

/// The index of the first `c` at or after `i`, or the length of `s`.
pub open spec fn next_index_of(s: Seq<char>, i: int, c: char) -> int
    decreases s.len() - i,
{
    if i < 0 || i >= s.len() {
        s.len() as int
    } else if s[i] == c {
        i
    } else {
        next_index_of(s, i + 1, c)
    }
}

pub proof fn lemma_next_index_of(s: Seq<char>, i: int, c: char)
    requires
        0 <= i <= s.len(),
    ensures
        i <= next_index_of(s, i, c) <= s.len(),
        next_index_of(s, i, c) < s.len() ==> s[next_index_of(s, i, c)] == c,
        forall|k: int| i <= k < next_index_of(s, i, c) ==> #[trigger] s[k] != c,
    decreases s.len() - i,
{
    if i < s.len() && s[i] != c {
        lemma_next_index_of(s, i + 1, c);
    }
}

/// The index of the last `c` before index `j`, or -1.
pub open spec fn last_index_of(s: Seq<char>, c: char, j: int) -> int
    decreases j,
{
    if j <= 0 || j > s.len() {
        -1
    } else if s[j - 1] == c {
        j - 1
    } else {
        last_index_of(s, c, j - 1)
    }
}

/// What follows the last `c` in `s` (all of `s` when there is none): the
/// first item of `s.rsplit(c)`.
pub open spec fn after_last(s: Seq<char>, c: char) -> Seq<char> {
    s.subrange(last_index_of(s, c, s.len() as int) + 1, s.len() as int)
}

pub proof fn lemma_last_index_of(s: Seq<char>, c: char, j: int)
    requires
        0 <= j <= s.len(),
    ensures
        -1 <= last_index_of(s, c, j) < j,
        last_index_of(s, c, j) >= 0 ==> s[last_index_of(s, c, j)] == c,
        forall|k: int| last_index_of(s, c, j) < k < j ==> #[trigger] s[k] != c,
    decreases j,
{
    if j > 0 && s[j - 1] != c {
        lemma_last_index_of(s, c, j - 1);
    }
}

/// `lit` occurs somewhere in `s`.
pub open spec fn contains(s: Seq<char>, lit: Seq<char>) -> bool {
    exists|i: int| has_at(s, i, lit)
}

/// `s` without the suffix `lit`, when it ends with it.
pub open spec fn strip_suffix(s: Seq<char>, lit: Seq<char>) -> Seq<char> {
    if s.len() >= lit.len() && ends_with(s, lit) {
        s.take(s.len() - lit.len())
    } else {
        s
    }
}

/// A vector holding `v[a..b]`.
pub fn sub_vec(v: &Vec<char>, a: usize, b: usize) -> (r: Vec<char>)
    requires
        a <= b <= v.len(),
    ensures
        r@ == v@.subrange(a as int, b as int),
{
    let mut r: Vec<char> = Vec::new();
    let mut i = a;
    while i < b
        invariant
            a <= i <= b <= v.len(),
            r@ == v@.subrange(a as int, i as int),
        decreases b - i,
    {
        r.push(v[i]);
        i = i + 1;
        assert(r@ =~= v@.subrange(a as int, i as int));
    }
    r
}

/// Whether `lit` occurs in `v[a..b]`.
pub fn contains_in(v: &Vec<char>, a: usize, b: usize, lit: &str) -> (r: bool)
    requires
        a <= b <= v.len(),
    ensures
        r == contains(v@.subrange(a as int, b as int), lit@),
{
    let sub = sub_vec(v, a, b);
    let mut i: usize = 0;
    while i < sub.len()
        invariant
            i <= sub.len(),
            sub@ == v@.subrange(a as int, b as int),
            forall|k: int| 0 <= k < i ==> !has_at(sub@, k, lit@),
        decreases sub.len() - i,
    {
        if lit_at(&sub, i, lit) {
            return true;
        }
        i = i + 1;
    }
    if lit_at(&sub, i, lit) {
        return true;
    }
    proof {
        assert forall|k: int| !has_at(sub@, k, lit@) by {
            if 0 <= k <= i {
            } else if k > sub@.len() {
            } else if k < 0 {
            }
        }
    }
    false
}

/// Whether `v[a..b]` begins with `lit`.
pub fn starts_with_in(v: &Vec<char>, a: usize, b: usize, lit: &str) -> (r: bool)
    requires
        a <= b <= v.len(),
    ensures
        r == starts_with(v@.subrange(a as int, b as int), lit@),
{
    let l = chars_of(lit);
    if l.len() > b - a {
        return false;
    }
    let r = lit_at(v, a, lit);
    assert(v@.subrange(a as int, b as int).subrange(0, l@.len() as int) =~= v@.subrange(a as int, a + l@.len()));
    r
}

/// Whether `v[a..b]` ends with `lit`.
pub fn ends_with_in(v: &Vec<char>, a: usize, b: usize, lit: &str) -> (r: bool)
    requires
        a <= b <= v.len(),
    ensures
        r == ends_with(v@.subrange(a as int, b as int), lit@),
        r ==> lit@.len() <= b - a,
{
    let l = chars_of(lit);
    if l.len() > b - a {
        return false;
    }
    let r = lit_at(v, b - l.len(), lit);
    assert(v@.subrange(a as int, b as int).subrange(b - a - l@.len(), b - a) =~= v@.subrange(b - l@.len(), b as int));
    r
}

/// The length of `lit` in characters.
pub fn char_len(lit: &str) -> (n: usize)
    ensures
        n == lit@.len(),
{
    chars_of(lit).len()
}

} // verus!
