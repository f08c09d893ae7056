//! Copying text to the terminal's clipboard with the OSC 52 escape sequence,
//! which carries the text base64-encoded.

use vstd::prelude::*;
use crate::app::FocusPane;
use crate::console::{focus_label, focus_label_spec};
use crate::model::OomEvent;

verus! {

/// The base64 alphabet.
pub open spec fn b64_digit(v: nat) -> char {
    if v < 26 {
        (('A' as u32) + v) as char
    } else if v < 52 {
        (('a' as u32) + (v - 26)) as char
    } else if v < 62 {
        (('0' as u32) + (v - 52)) as char
    } else if v == 62 {
        '+'
    } else {
        '/'
    }
}

#[verifier::opaque]
/// Three bytes (missing ones counted as zero) as four base64 digits, the
/// digits that stand only for missing bytes written `=`.
pub open spec fn b64_group(b0: u8, b1: u8, b2: u8, n: nat) -> Seq<char> {
    let v = (b0 as nat) * 65536 + (b1 as nat) * 256 + (b2 as nat);
    seq![
        b64_digit(v / 262144),
        b64_digit((v / 4096) % 64),
        if n >= 2 {
            b64_digit((v / 64) % 64)
        } else {
            '='
        },
        if n >= 3 {
            b64_digit(v % 64)
        } else {
            '='
        },
    ]
}

#[verifier::opaque]
/// Standard base64 (RFC 4648, with padding) of `bytes`.
pub open spec fn base64(bytes: Seq<u8>) -> Seq<char>
    decreases bytes.len(),
{
    if bytes.len() == 0 {
        Seq::empty()
    } else if bytes.len() == 1 {
        b64_group(bytes[0], 0, 0, 1)
    } else if bytes.len() == 2 {
        b64_group(bytes[0], bytes[1], 0, 2)
    } else {
        b64_group(bytes[0], bytes[1], bytes[2], 3) + base64(bytes.skip(3))
    }
}

fn b64_digit_exec(v: u32) -> (c: char)
    requires
        v < 64,
    ensures
        c == b64_digit(v as nat),
{
    if v < 26 {
        (65u8 + v as u8) as char
    } else if v < 52 {
        (97u8 + (v - 26) as u8) as char
    } else if v < 62 {
        (48u8 + (v - 52) as u8) as char
    } else if v == 62 {
        '+'
    } else {
        '/'
    }
}

fn push_group(out: &mut String, b0: u8, b1: u8, b2: u8, n: usize)
    requires
        1 <= n <= 3,
    ensures
        final(out)@ == old(out)@ + b64_group(b0, b1, b2, n as nat),
{
    let v: u32 = (b0 as u32) * 65536 + (b1 as u32) * 256 + (b2 as u32);
    let ghost start = out@;
    reveal(b64_group);
    out.push(b64_digit_exec(v / 262144));
    out.push(b64_digit_exec((v / 4096) % 64));
    if n >= 2 {
        out.push(b64_digit_exec((v / 64) % 64));
    } else {
        out.push('=');
    }
    if n >= 3 {
        out.push(b64_digit_exec(v % 64));
    } else {
        out.push('=');
    }
    assert(out@ =~= start + b64_group(b0, b1, b2, n as nat));
}

proof fn lemma_base64_step(bytes: Seq<u8>)
    requires
        bytes.len() >= 3,
    ensures
        base64(bytes) == b64_group(bytes[0], bytes[1], bytes[2], 3) + base64(bytes.skip(3)),
{
    reveal(base64);
}

proof fn lemma_base64_tail(bytes: Seq<u8>)
    requires
        bytes.len() < 3,
    ensures
        bytes.len() == 0 ==> base64(bytes) == Seq::<char>::empty(),
        bytes.len() == 1 ==> base64(bytes) == b64_group(bytes[0], 0, 0, 1),
        bytes.len() == 2 ==> base64(bytes) == b64_group(bytes[0], bytes[1], 0, 2),
{
    reveal(base64);
}

/// Standard base64 (RFC 4648, with padding) of `bytes`.
pub fn base64_encode(bytes: &Vec<u8>) -> (r: String)
    ensures
        r@ == base64(bytes@),
{
    let mut out = String::new();
    let mut i: usize = 0;
    assert(bytes@.skip(0) =~= bytes@);
    assert(out@ =~= Seq::<char>::empty());
    while 3 <= bytes.len() - i
        invariant
            i <= bytes.len(),
            base64(bytes@) == out@ + base64(bytes@.skip(i as int)),
        decreases bytes.len() - i,
    {
        let ghost rest = bytes@.skip(i as int);
        let ghost before = out@;
        push_group(&mut out, bytes[i], bytes[i + 1], bytes[i + 2], 3);
        proof {
            lemma_base64_step(rest);
            assert(rest[0] == bytes@[i as int] && rest[1] == bytes@[i + 1] && rest[2] == bytes@[i + 2]);
            assert(rest.skip(3) =~= bytes@.skip(i + 3));
            assert(before + (b64_group(rest[0], rest[1], rest[2], 3) + base64(rest.skip(3)))
                =~= out@ + base64(bytes@.skip(i + 3)));
        }
        i = i + 3;
    }
    let ghost rest = bytes@.skip(i as int);
    proof {
        lemma_base64_tail(rest);
    }
    let left = bytes.len() - i;
    if left == 1 {
        assert(rest[0] == bytes@[i as int]);
        push_group(&mut out, bytes[i], 0, 0, 1);
    } else if left == 2 {
        assert(rest[0] == bytes@[i as int] && rest[1] == bytes@[i + 1]);
        push_group(&mut out, bytes[i], bytes[i + 1], 0, 2);
    } else {
        assert(rest =~= Seq::<u8>::empty());
    }
    assert(out@ =~= base64(bytes@));
    out
}

/// The OSC 52 sequence that puts text, given as its UTF-8 bytes, on the
/// terminal's clipboard.
pub open spec fn osc52_spec(bytes: Seq<u8>) -> Seq<char> {
    seq!['\x1b'] + "]52;c;"@ + base64(bytes) + seq!['\x07']
}

pub fn osc52(bytes: &Vec<u8>) -> (r: String)
    ensures
        r@ == osc52_spec(bytes@),
{
    let mut r = String::new();
    r.push('\x1b');
    r.append("]52;c;");
    let b = base64_encode(bytes);
    r.append(b.as_str());
    r.push('\x07');
    assert(r@ =~= osc52_spec(bytes@));
    r
}

/// The status line after the focused pane was copied.
pub open spec fn copied_status_spec(pane: FocusPane) -> Seq<char> {
    "Copied "@ + focus_label_spec(pane) + " pane to clipboard"@
}

pub fn copied_status(pane: FocusPane) -> (r: String)
    ensures
        r@ == copied_status_spec(pane),
{
    let mut r = String::new();
    r.append("Copied ");
    r.append(focus_label(pane));
    r.append(" pane to clipboard");
    r
}

/// The lines joined by line feeds.
pub open spec fn joined(ls: Seq<Seq<char>>) -> Seq<char>
    decreases ls.len(),
{
    if ls.len() == 0 {
        Seq::empty()
    } else if ls.len() == 1 {
        ls[0]
    } else {
        joined(ls.drop_last()) + seq!['\n'] + ls.last()
    }
}

/// An event's raw kernel evidence, one line per log line.
pub fn evidence_text(event: &OomEvent) -> (r: String)
    ensures
        r@ == joined(crate::model::strings_view(event.raw_lines@)),
{
    let ghost ls = crate::model::strings_view(event.raw_lines@);
    let mut r = String::new();
    let mut k: usize = 0;
    assert(ls.take(0) =~= Seq::<Seq<char>>::empty());
    while k < event.raw_lines.len()
        invariant
            k <= event.raw_lines.len(),
            ls == crate::model::strings_view(event.raw_lines@),
            r@ == joined(ls.take(k as int)),
        decreases event.raw_lines.len() - k,
    {
        if k > 0 {
            r.push('\n');
        }
        r.append(event.raw_lines[k].as_str());
        proof {
            assert(ls.take(k + 1).drop_last() =~= ls.take(k as int));
            assert(ls.take(k + 1).last() == event.raw_lines@[k as int]@);
            if k == 0 {
                assert(r@ =~= joined(ls.take(1)));
            } else {
                assert(r@ =~= joined(ls.take(k + 1)));
            }
        }
        k = k + 1;
    }
    assert(ls.take(event.raw_lines@.len() as int) =~= ls);
    r
}

} // verus!
