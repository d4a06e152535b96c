use crate::error::HeatmapError;
use vstd::prelude::*;

verus! {

/// Whether `c` is a hexadecimal digit, in either case.
pub open spec fn is_hex_digit(c: char) -> bool {
    ('0' <= c && c <= '9') || ('a' <= c && c <= 'f') || ('A' <= c && c <= 'F')
}

/// The value of the hexadecimal digit `c`.
pub open spec fn hex_value(c: char) -> nat {
    if '0' <= c && c <= '9' {
        (c as nat - '0' as nat) as nat
    } else if 'a' <= c && c <= 'f' {
        (c as nat - 'a' as nat + 10) as nat
    } else {
        (c as nat - 'A' as nat + 10) as nat
    }
}

/// The text after one leading `#`, if there is one.
pub open spec fn strip_hash(s: Seq<char>) -> Seq<char> {
    if s.len() > 0 && s[0] == '#' {
        s.drop_first()
    } else {
        s
    }
}

/// Whether `s` is an optional `#` followed by at least six hex digits.
pub open spec fn is_hex_color(s: Seq<char>) -> bool {
    let h = strip_hash(s);
    h.len() >= 6 && forall|i: int| 0 <= i < 6 ==> is_hex_digit(#[trigger] h[i])
}

/// The byte written by the two hex digits of `h` at `2 * k` and `2 * k + 1`.
pub open spec fn channel(h: Seq<char>, k: int) -> nat {
    16 * hex_value(h[2 * k]) + hex_value(h[2 * k + 1])
}

/// The red, green and blue channels that the hex color `s` writes.
pub open spec fn rgb_of(s: Seq<char>) -> (u8, u8, u8) {
    let h = strip_hash(s);
    (channel(h, 0) as u8, channel(h, 1) as u8, channel(h, 2) as u8)
}

/// The lower-case hex digit for `n` below 16.
pub open spec fn hex_char(n: nat) -> char {
    if n < 10 {
        (n + '0' as nat) as char
    } else {
        (n - 10 + 'a' as nat) as char
    }
}

/// The hex digit `c` in lower case.
pub open spec fn lower_hex(c: char) -> char {
    if 'A' <= c && c <= 'F' {
        (c as nat - 'A' as nat + 'a' as nat) as char
    } else {
        c
    }
}

/// The two lower-case hex digits of the byte `b`.
pub open spec fn byte_hex(b: u8) -> Seq<char> {
    seq![hex_char(b as nat / 16), hex_char(b as nat % 16)]
}

/// The value of the hex digit `c`, if it is one.
fn digit_value(c: char) -> (r: Option<u8>)
    ensures
        r == (if is_hex_digit(c) { Some(hex_value(c) as u8) } else { None::<u8> }),
        r is Some ==> r->0 < 16,
{
    if '0' <= c && c <= '9' {
        Some(((c as u32) - ('0' as u32)) as u8)
    } else if 'a' <= c && c <= 'f' {
        Some(((c as u32) - ('a' as u32) + 10) as u8)
    } else if 'A' <= c && c <= 'F' {
        Some(((c as u32) - ('A' as u32) + 10) as u8)
    } else {
        None
    }
}

/// Reads the red, green and blue channels of a color written `#RRGGBB` or
/// `RRGGBB`, in either case. Characters after the sixth digit are not read.
pub fn hex_to_rgb(s: &str) -> (r: Result<(u8, u8, u8), HeatmapError>)
    ensures
        match r {
            Ok(rgb) => is_hex_color(s@) && rgb == rgb_of(s@),
            Err(e) => !is_hex_color(s@) && e is MalformedColor && e->MalformedColor_0@ == strip_hash(
                s@,
            ),
        },
{
    let n = s.unicode_len();
    let start: usize = if n > 0 && s.get_char(0) == '#' { 1 } else { 0 };
    let hex = s.substring_char(start, n);
    assert(hex@ == strip_hash(s@));
    if n - start < 6 {
        return Err(HeatmapError::MalformedColor(hex.to_owned()));
    }
    let mut vals: Vec<u8> = Vec::new();
    let mut i: usize = 0;
    while i < 6
        invariant
            0 <= i <= 6,
            hex@ == strip_hash(s@),
            hex@.len() >= 6,
            vals@.len() == i,
            forall|j: int| 0 <= j < i ==> is_hex_digit(#[trigger] hex@[j]),
            forall|j: int| 0 <= j < i ==> vals@[j] == hex_value(#[trigger] hex@[j]),
            forall|j: int| 0 <= j < i ==> vals@[j] < 16,
        decreases 6 - i,
    {
        match digit_value(hex.get_char(i)) {
            Some(v) => vals.push(v),
            None => {
                return Err(HeatmapError::MalformedColor(hex.to_owned()));
            },
        }
        i = i + 1;
    }
    let r = vals[0] * 16 + vals[1];
    let g = vals[2] * 16 + vals[3];
    let b = vals[4] * 16 + vals[5];
    Ok((r, g, b))
}

/// Writing a hex digit's value back as a digit gives the digit in lower case.
proof fn lemma_hex_digit_round_trip(c: char)
    requires
        is_hex_digit(c),
    ensures
        hex_value(c) < 16,
        hex_char(hex_value(c)) == lower_hex(c),
{
}

/// Writing a byte's two halves as digits gives the digits that wrote it.
proof fn lemma_channel_round_trip(h: Seq<char>, k: int)
    requires
        0 <= k < 3,
        h.len() == 6,
        forall|i: int| 0 <= i < 6 ==> is_hex_digit(#[trigger] h[i]),
    ensures
        channel(h, k) < 256,
        byte_hex(channel(h, k) as u8) == seq![lower_hex(h[2 * k]), lower_hex(h[2 * k + 1])],
{
    let a = hex_value(h[2 * k]);
    let b = hex_value(h[2 * k + 1]);
    lemma_hex_digit_round_trip(h[2 * k]);
    lemma_hex_digit_round_trip(h[2 * k + 1]);
    assert((16 * a + b) / 16 == a && (16 * a + b) % 16 == b) by (nonlinear_arith)
        requires
            a < 16,
            b < 16,
    ;
    assert(byte_hex(channel(h, k) as u8) =~= seq![lower_hex(h[2 * k]), lower_hex(h[2 * k + 1])]);
}

/// For a color of exactly six hex digits, with or without `#`, writing the
/// channels that `hex_to_rgb` reads back as hex gives the same digits, up to
/// case.
pub proof fn lemma_hex_to_rgb_round_trip(s: Seq<char>)
    requires
        is_hex_color(s),
        strip_hash(s).len() == 6,
    ensures
        byte_hex(rgb_of(s).0) + byte_hex(rgb_of(s).1) + byte_hex(rgb_of(s).2) == strip_hash(
            s,
        ).map_values(|c: char| lower_hex(c)),
{
    let h = strip_hash(s);
    lemma_channel_round_trip(h, 0);
    lemma_channel_round_trip(h, 1);
    lemma_channel_round_trip(h, 2);
    assert(byte_hex(rgb_of(s).0) + byte_hex(rgb_of(s).1) + byte_hex(rgb_of(s).2) =~= h.map_values(
        |c: char| lower_hex(c),
    ));
}

} // verus!
