//! Best-effort host details for the interactive header.
//!
//! The files they come from (`/proc/meminfo`, `/proc/cpuinfo`,
//! `/etc/os-release`) are read by the program around this library; what is
//! taken from their text, and how it is shown, is decided here.

use vstd::prelude::*;
use crate::text::{
    chars_of, line_bounds, lines, one_decimal, parse_u64, parse_u64_spec, push_one_decimal,
    starts_with, starts_with_in, std_white_space, string_of, trim, trim_bounds,
};

verus! {

#[derive(Debug, Clone, PartialEq, Eq)]
pub struct DeviceInfo {
    pub ram: String,
    pub cpu: String,
    pub os: String,
}

/// The rest of `l` after the prefix `p`, if `l` begins with it.
pub open spec fn strip_prefix_of(l: Seq<char>, p: Seq<char>) -> Option<Seq<char>> {
    if starts_with(l, p) {
        Some(l.skip(p.len() as int))
    } else {
        None
    }
}

/// The rest of the first line that begins with `p` (or, on that same line,
/// with `q`): `lines().find_map(|l| l.strip_prefix(p).or_else(|| l.strip_prefix(q)))`.
pub open spec fn find_line_prefix(ls: Seq<Seq<char>>, p: Seq<char>, q: Option<Seq<char>>) -> Option<Seq<char>>
    decreases ls.len(),
{
    if ls.len() == 0 {
        None
    } else {
        match strip_prefix_of(ls[0], p) {
            Some(r) => Some(r),
            None => match q {
                Some(q) => match strip_prefix_of(ls[0], q) {
                    Some(r) => Some(r),
                    None => find_line_prefix(ls.drop_first(), p, Some(q)),
                },
                None => find_line_prefix(ls.drop_first(), p, None),
            },
        }
    }
}

/// The first index at or after `i` that holds white space, or the length.
pub open spec fn word_end(s: Seq<char>, i: int) -> int
    decreases s.len() - i,
{
    if 0 <= i < s.len() && !std_white_space(s[i]) {
        word_end(s, i + 1)
    } else {
        i
    }
}

/// The first white-space separated word of `s` (`split_whitespace().next()`).
pub open spec fn first_word(s: Seq<char>) -> Option<Seq<char>> {
    let a = crate::text::trim_start_index(s, 0);
    if a >= s.len() {
        None
    } else {
        Some(s.subrange(a, word_end(s, a)))
    }
}

/// The first index at or after `i` that is not `c`.
pub open spec fn skip_char(s: Seq<char>, c: char, i: int) -> int
    decreases s.len() - i,
{
    if 0 <= i < s.len() && s[i] == c {
        skip_char(s, c, i + 1)
    } else {
        i
    }
}

/// The end of `s[..j]` once trailing `c` are removed.
pub open spec fn skip_char_back(s: Seq<char>, c: char, j: int) -> int
    decreases j,
{
    if 0 < j <= s.len() && s[j - 1] == c {
        skip_char_back(s, c, j - 1)
    } else {
        j
    }
}

/// `s` without leading and trailing `c` (`trim_matches(c)`).
pub open spec fn trim_char(s: Seq<char>, c: char) -> Seq<char> {
    let a = skip_char(s, c, 0);
    let b = skip_char_back(s, c, s.len() as int);
    if a < b {
        s.subrange(a, b)
    } else {
        Seq::empty()
    }
}

/// Total RAM from `/proc/meminfo`, in GiB with one decimal place.
pub open spec fn total_ram_spec(meminfo: Seq<char>) -> Option<Seq<char>> {
    match find_line_prefix(lines(meminfo), "MemTotal:"@, None) {
        Some(rest) => match first_word(rest) {
            Some(w) => match parse_u64_spec(w) {
                Some(kb) => Some(one_decimal(kb as nat, 0x100000) + " GiB"@),
                None => None,
            },
            None => None,
        },
        None => None,
    }
}

/// The processor model from `/proc/cpuinfo`.
pub open spec fn cpu_model_spec(cpuinfo: Seq<char>) -> Option<Seq<char>> {
    match find_line_prefix(lines(cpuinfo), "model name\t: "@, Some("Hardware\t: "@)) {
        Some(m) => Some(trim(m)),
        None => None,
    }
}

/// The distribution's pretty name from `/etc/os-release`.
pub open spec fn os_version_spec(release: Seq<char>) -> Option<Seq<char>> {
    match find_line_prefix(lines(release), "PRETTY_NAME="@, None) {
        Some(p) => Some(trim(trim_char(p, '"'))),
        None => None,
    }
}

/// Finds the first line of `v` that begins with `p` (or with `q`) and gives
/// the bounds of the rest of it.
pub fn find_line_prefix_exec(v: &Vec<char>, p: &str, q: Option<&str>) -> (r: Option<(usize, usize)>)
    ensures
        match find_line_prefix(lines(v@), p@, match q {
            Some(q) => Some(q@),
            None => None,
        }) {
            Some(rest) => r matches Some((a, b)) && a <= b <= v@.len() && v@.subrange(a as int, b as int)
                == rest,
            None => r is None,
        },
{
    let ghost qv: Option<Seq<char>> = match q {
        Some(q) => Some(q@),
        None => None,
    };
    let bounds = line_bounds(v);
    let ghost ls = lines(v@);
    let pl = crate::text::char_len(p);
    let mut k: usize = 0;
    assert(ls.skip(0) =~= ls);
    while k < bounds.len()
        invariant
            k <= bounds.len(),
            ls == lines(v@),
            qv == match q {
                Some(q) => Some(q@),
                None => None::<Seq<char>>,
            },
            pl == p@.len(),
            bounds@.len() == ls.len(),
            forall|j: int|
                0 <= j < bounds@.len() ==> {
                    &&& (#[trigger] bounds@[j]).0 <= bounds@[j].1 <= v@.len()
                    &&& v@.subrange(bounds@[j].0 as int, bounds@[j].1 as int) == ls[j]
                },
            find_line_prefix(ls, p@, qv) == find_line_prefix(ls.skip(k as int), p@, qv),
        decreases bounds.len() - k,
    {
        let (a, b) = bounds[k];
        let ghost l = ls[k as int];
        proof {
            let t = ls.skip(k as int);
            assert(t.len() > 0);
            assert(t[0] == l);
            assert(t.drop_first() =~= ls.skip(k + 1));
            assert(l == v@.subrange(a as int, b as int));
        }
        if starts_with_in(v, a, b, p) {
            assert(v@.subrange(a + pl, b as int) =~= l.skip(p@.len() as int));
            return Some((a + pl, b));
        }
        match q {
            Some(q) => {
                if starts_with_in(v, a, b, q) {
                    let ql = crate::text::char_len(q);
                    assert(v@.subrange(a + ql, b as int) =~= l.skip(q@.len() as int));
                    return Some((a + ql, b));
                }
            },
            None => {},
        }
        k = k + 1;
    }
    None
}

/// The bounds of the first word of `v[a..b]`.
fn first_word_exec(v: &Vec<char>, a: usize, b: usize) -> (r: Option<(usize, usize)>)
    requires
        a <= b <= v.len(),
    ensures
        match first_word(v@.subrange(a as int, b as int)) {
            Some(w) => r matches Some((x, y)) && a <= x <= y <= b && v@.subrange(x as int, y as int) == w,
            None => r is None,
        },
{
    let ghost s = v@.subrange(a as int, b as int);
    let mut i = a;
    while i < b && v[i].is_whitespace()
        invariant
            a <= i <= b <= v.len(),
            s == v@.subrange(a as int, b as int),
            crate::text::trim_start_index(s, (i - a) as int) == crate::text::trim_start_index(s, 0),
        decreases b - i,
    {
        assert(s[i - a] == v@[i as int]);
        i = i + 1;
    }
    if i >= b {
        return None;
    }
    assert(s[i - a] == v@[i as int]);
    let mut j = i;
    while j < b && !v[j].is_whitespace()
        invariant
            a <= i <= j <= b <= v.len(),
            s == v@.subrange(a as int, b as int),
            word_end(s, (j - a) as int) == word_end(s, (i - a) as int),
        decreases b - j,
    {
        assert(s[j - a] == v@[j as int]);
        j = j + 1;
    }
    if j < b {
        assert(s[j - a] == v@[j as int]);
    }
    assert(v@.subrange(i as int, j as int) =~= s.subrange(i - a, j - a));
    Some((i, j))
}

/// Total RAM, read from the text of `/proc/meminfo`.
pub fn total_ram(meminfo: &str) -> (r: Option<String>)
    ensures
        crate::container::opt_view(r) == total_ram_spec(meminfo@),
{
    let v = chars_of(meminfo);
    let (a, b) = match find_line_prefix_exec(&v, "MemTotal:", None) {
        Some(x) => x,
        None => return None,
    };
    let (x, y) = match first_word_exec(&v, a, b) {
        Some(w) => w,
        None => return None,
    };
    let kb = match parse_u64(&v, x, y) {
        Some(kb) => kb,
        None => return None,
    };
    let mut out = String::new();
    push_one_decimal(&mut out, kb, 0x100000);
    out.append(" GiB");
    assert(out@ =~= one_decimal(kb as nat, 0x100000) + " GiB"@);
    Some(out)
}

/// The processor model, read from the text of `/proc/cpuinfo`.
pub fn cpu_model(cpuinfo: &str) -> (r: Option<String>)
    ensures
        crate::container::opt_view(r) == cpu_model_spec(cpuinfo@),
{
    let v = chars_of(cpuinfo);
    match find_line_prefix_exec(&v, "model name\t: ", Some("Hardware\t: ")) {
        Some((a, b)) => {
            let (x, y) = trim_bounds(&v, a, b);
            Some(string_of(&v, x, y))
        },
        None => None,
    }
}

/// The distribution's pretty name, read from the text of `/etc/os-release`.
pub fn os_version(release: &str) -> (r: Option<String>)
    ensures
        crate::container::opt_view(r) == os_version_spec(release@),
{
    let v = chars_of(release);
    match find_line_prefix_exec(&v, "PRETTY_NAME=", None) {
        Some((a, b)) => {
            let ghost s = v@.subrange(a as int, b as int);
            let mut x = a;
            proof {
                lemma_skip_char(s, '"', 0);
            }
            while x < b && v[x] == '"'
                invariant
                    a <= x <= b <= v.len(),
                    s == v@.subrange(a as int, b as int),
                    skip_char(s, '"', (x - a) as int) == skip_char(s, '"', 0),
                decreases b - x,
            {
                assert(s[x - a] == v@[x as int]);
                x = x + 1;
            }
            if x < b {
                assert(s[x - a] == v@[x as int]);
            }
            let mut y = b;
            while y > x && v[y - 1] == '"'
                invariant
                    a <= x <= y <= b <= v.len(),
                    s == v@.subrange(a as int, b as int),
                    skip_char_back(s, '"', (y - a) as int) == skip_char_back(s, '"', (b - a) as int),
                decreases y,
            {
                assert(s[y - 1 - a] == v@[y - 1]);
                y = y - 1;
            }
            proof {
                if y > x {
                    assert(s[y - 1 - a] == v@[y - 1]);
                } else {
                    // every character is a quote: the back scan stops at or below `x`
                    lemma_skip_char_back_all(s, '"', (x - a) as int, (y - a) as int);
                }
                let t = trim_char(s, '"');
                assert(v@.subrange(x as int, y as int) =~= t);
            }
            let (p, q) = trim_bounds(&v, x, y);
            Some(string_of(&v, p, q))
        },
        None => None,
    }
}

proof fn lemma_skip_char(s: Seq<char>, c: char, i: int)
    requires
        0 <= i <= s.len(),
    ensures
        i <= skip_char(s, c, i) <= s.len(),
        forall|k: int| i <= k < skip_char(s, c, i) ==> s[k] == c,
    decreases s.len() - i,
{
    if i < s.len() && s[i] == c {
        lemma_skip_char(s, c, i + 1);
    }
}

proof fn lemma_skip_char_back_all(s: Seq<char>, c: char, x: int, j: int)
    requires
        0 <= j <= x <= s.len(),
        forall|k: int| 0 <= k < x ==> s[k] == c,
    ensures
        skip_char_back(s, c, j) == 0,
    decreases j,
{
    if j > 0 {
        lemma_skip_char_back_all(s, c, x, j - 1);
    }
}

impl DeviceInfo {
    /// Host details from the texts of `/proc/meminfo`, `/proc/cpuinfo` and
    /// `/etc/os-release` (each `None` when it could not be read).
    pub fn detect(meminfo: Option<String>, cpuinfo: Option<String>, os_release: Option<String>) -> (r: Self)
        ensures
            r.ram@ == (match meminfo {
                Some(t) => match total_ram_spec(t@) {
                    Some(v) => v,
                    None => "RAM unavailable"@,
                },
                None => "RAM unavailable"@,
            }),
            r.cpu@ == (match cpuinfo {
                Some(t) => match cpu_model_spec(t@) {
                    Some(v) => v,
                    None => "CPU unavailable"@,
                },
                None => "CPU unavailable"@,
            }),
            r.os@ == (match os_release {
                Some(t) => match os_version_spec(t@) {
                    Some(v) => v,
                    None => "OS unavailable"@,
                },
                None => "OS unavailable"@,
            }),
    {
        let ram = match meminfo {
            Some(t) => match total_ram(t.as_str()) {
                Some(v) => v,
                None => String::from_str("RAM unavailable"),
            },
            None => String::from_str("RAM unavailable"),
        };
        let cpu = match cpuinfo {
            Some(t) => match cpu_model(t.as_str()) {
                Some(v) => v,
                None => String::from_str("CPU unavailable"),
            },
            None => String::from_str("CPU unavailable"),
        };
        let os = match os_release {
            Some(t) => match os_version(t.as_str()) {
                Some(v) => v,
                None => String::from_str("OS unavailable"),
            },
            None => String::from_str("OS unavailable"),
        };
        DeviceInfo { ram, cpu, os }
    }
}

} // verus!
