//! Byte-level helpers: the Internet checksum and the hex dump.

use vstd::prelude::*;
use vstd::arithmetic::div_mod::{lemma_mod_multiples_vanish, lemma_mul_mod_noop_general, lemma_add_mod_noop};

verus! {

/// Two bytes read as one 16-bit word: little-endian order when `little`
/// holds, big-endian order otherwise.
pub open spec fn word16(b0: u8, b1: u8, little: bool) -> nat {
    if little {
        (b0 + 256 * b1) as nat
    } else {
        (256 * b0 + b1) as nat
    }
}

/// Sum of the first `n` 16-bit words of `s`.
pub open spec fn words_sum(s: Seq<u8>, n: nat, little: bool) -> nat
    decreases n,
{
    if n == 0 {
        0
    } else {
        words_sum(s, (n - 1) as nat, little) + word16(s[2 * n - 2], s[2 * n - 1], little)
    }
}

/// Sum of all 16-bit words of `s`; a trailing odd byte counts by its own value.
pub open spec fn bytes_sum(s: Seq<u8>, little: bool) -> nat {
    words_sum(s, s.len() / 2, little) + if s.len() % 2 == 1 {
        s[s.len() - 1] as nat
    } else {
        0nat
    }
}

/// One's-complement folding: the carries above bit 15 are added back into
/// the low 16 bits until none is left.
pub open spec fn fold16(x: nat) -> nat
    decreases x,
{
    if x < 0x10000 {
        x
    } else {
        fold16(x % 0x10000 + x / 0x10000)
    }
}

/// The Internet checksum of `s`, started from `init`, with words read in the
/// given byte order.
pub open spec fn spec_cksum16(s: Seq<u8>, init: u32, little: bool) -> int {
    0xFFFF - fold16((init + bytes_sum(s, little)) as nat)
}


/// Each prefix sum of words is at most the sum of more words.
pub proof fn lemma_words_sum_monotone(s: Seq<u8>, i: nat, n: nat, little: bool)
    requires
        i <= n,
    ensures
        words_sum(s, i, little) <= words_sum(s, n, little),
    decreases n - i,
{
    if i < n {
        lemma_words_sum_monotone(s, i, (n - 1) as nat, little);
    }
}

/// Each word is at most 0xFFFF.
proof fn lemma_words_sum_bound(s: Seq<u8>, n: nat, little: bool)
    ensures
        words_sum(s, n, little) <= 0xFFFF * n,
    decreases n,
{
    if n > 0 {
        lemma_words_sum_bound(s, (n - 1) as nat, little);
    }
}

/// The sum of the words of `s` is at most 0xFFFF per word and 0xFF for an odd
/// trailing byte.
pub proof fn lemma_bytes_sum_bound(s: Seq<u8>, little: bool)
    ensures
        bytes_sum(s, little) <= 0xFFFF * (s.len() / 2) + if s.len() % 2 == 1 {
            0xFFnat
        } else {
            0nat
        },
{
    lemma_words_sum_bound(s, s.len() / 2, little);
}

/// `u16::from_ne_bytes`: the two bytes read in the byte order of the machine,
/// which is either little-endian or big-endian; which one is left open.
#[verifier::external_body]
fn u16_from_ne_bytes(b0: u8, b1: u8) -> (r: u16)
    ensures
        r == word16(b0, b1, true) || r == word16(b0, b1, false),
{
    u16::from_ne_bytes([b0, b1])
}

/// The Internet checksum of `data` started from `init`, with 16-bit words
/// read in the given byte order (`little` for little-endian).
pub fn cksum16_endian(data: &[u8], init: u32, little: bool) -> (r: u16)
    requires
        init + bytes_sum(data@, little) <= u32::MAX,
    ensures
        r == spec_cksum16(data@, init, little),
{
    let n: usize = data.len() / 2;
    let mut sum: u32 = init;
    let mut i: usize = 0;
    while i < n
        invariant
            i <= n,
            n == data@.len() / 2,
            data@.len() == data.len(),
            sum == init + words_sum(data@, i as nat, little),
            init + bytes_sum(data@, little) <= u32::MAX,
        decreases n - i,
    {
        assert(2 * i + 1 < data@.len());
        let b0: u8 = data[2 * i];
        let b1: u8 = data[2 * i + 1];
        let w: u32 = if little {
            b0 as u32 + 256 * (b1 as u32)
        } else {
            256 * (b0 as u32) + b1 as u32
        };
        proof {
            lemma_words_sum_monotone(data@, (i + 1) as nat, n as nat, little);
            assert(words_sum(data@, (i + 1) as nat, little) == words_sum(data@, i as nat, little)
                + word16(data@[2 * i as int], data@[2 * i + 1], little));
        }
        sum = sum + w;
        i = i + 1;
    }
    if data.len() % 2 == 1 {
        sum = sum + data[data.len() - 1] as u32;
    }
    assert(sum == init + bytes_sum(data@, little));
    let ghost total: nat = sum as nat;
    while sum >> 16 > 0
        invariant
            fold16(sum as nat) == fold16(total),
        decreases sum,
    {
        assert(sum >> 16 == sum / 0x10000 && sum & 0xFFFF == sum % 0x10000) by (bit_vector);
        sum = (sum & 0xFFFF) + (sum >> 16);
    }
    assert(sum >> 16 == 0 ==> sum < 0x10000) by (bit_vector);
    (0xFFFF - sum) as u16
}

/// The Internet checksum of `data` started from `init`, with 16-bit words read
/// in the byte order of the machine it runs on.
pub fn cksum16(data: &[u8], init: u32) -> (r: u16)
    requires
        init + bytes_sum(data@, true) <= u32::MAX,
        init + bytes_sum(data@, false) <= u32::MAX,
    ensures
        r == spec_cksum16(data@, init, true) || r == spec_cksum16(data@, init, false),
{
    let probe: u16 = u16_from_ne_bytes(1, 0);
    let little: bool = probe == 1;
    cksum16_endian(data, init, little)
}


/// One folding step keeps the value modulo 0xFFFF, keeps it positive and
/// makes it smaller.
proof fn lemma_fold16_step(x: nat)
    requires
        x >= 0x10000,
    ensures
        (x % 0x10000 + x / 0x10000) % 0xFFFF == x % 0xFFFF,
        0 < x % 0x10000 + x / 0x10000 < x,
{
    let q: int = x as int / 0x10000;
    let r: int = x as int % 0x10000;
    assert(x == 0x10000 * q + r);
    lemma_mod_multiples_vanish(q, r + q, 0xFFFF);
    assert(0xFFFF * q + (r + q) == x);
}

/// Folding gives a 16-bit value that equals its argument modulo 0xFFFF, is
/// zero only for zero and never exceeds its argument.
pub proof fn lemma_fold16(x: nat)
    ensures
        fold16(x) < 0x10000,
        fold16(x) % 0xFFFF == x % 0xFFFF,
        fold16(x) == 0 <==> x == 0,
        fold16(x) <= x,
    decreases x,
{
    if x >= 0x10000 {
        lemma_fold16_step(x);
        lemma_fold16((x % 0x10000 + x / 0x10000) as nat);
    }
}

/// The folded sum is 0xFFFF, so that the checksum is zero, exactly when the
/// sum is a positive multiple of 0xFFFF.
pub proof fn lemma_fold16_all_ones(x: nat)
    ensures
        fold16(x) == 0xFFFF <==> (x > 0 && x % 0xFFFF == 0),
{
    lemma_fold16(x);
}

/// Big-endian words sum, modulo 0xFFFF, to 256 times the little-endian sum,
/// and one sum is zero exactly when the other is.
proof fn lemma_words_sum_swap(s: Seq<u8>, n: nat)
    ensures
        words_sum(s, n, false) % 0xFFFF == (256 * words_sum(s, n, true)) % 0xFFFF,
        words_sum(s, n, false) == 0 <==> words_sum(s, n, true) == 0,
    decreases n,
{
    if n > 0 {
        lemma_words_sum_swap(s, (n - 1) as nat);
        let a: int = s[2 * n - 2] as int;
        let b: int = s[2 * n - 1] as int;
        let pl: int = words_sum(s, (n - 1) as nat, true) as int;
        let pb: int = words_sum(s, (n - 1) as nat, false) as int;
        assert(256 * (pl + a + 256 * b) == 256 * pl + 256 * a + 0xFFFF * b + b) by (nonlinear_arith);
        lemma_add_mod_noop(pb, 256 * a + b, 0xFFFF);
        lemma_add_mod_noop(256 * pl, 256 * a + b, 0xFFFF);
        lemma_mod_multiples_vanish(b, 256 * pl + 256 * a + b, 0xFFFF);
        assert(0xFFFF * b + (256 * pl + 256 * a + b) == 256 * (pl + a + 256 * b));
    }
}

/// For data of even length, whether the Internet checksum started from zero
/// is zero does not depend on the byte order in which the words are read.
pub proof fn lemma_cksum16_zero_any_order(s: Seq<u8>)
    requires
        s.len() % 2 == 0,
    ensures
        spec_cksum16(s, 0, true) == 0 <==> spec_cksum16(s, 0, false) == 0,
{
    let n: nat = s.len() / 2;
    let l: nat = words_sum(s, n, true);
    let b: nat = words_sum(s, n, false);
    lemma_words_sum_swap(s, n);
    lemma_fold16_all_ones(l);
    lemma_fold16_all_ones(b);
    assert(bytes_sum(s, true) == l);
    assert(bytes_sum(s, false) == b);
    if l % 0xFFFF == 0 {
        lemma_mul_mod_noop_general(256, l as int, 0xFFFF);
    }
    if b % 0xFFFF == 0 {
        // 256 * 256 == 0x10000, which is 1 modulo 0xFFFF
        lemma_mul_mod_noop_general(256, (256 * l) as int, 0xFFFF);
        assert(256 * (256 * l) == 0xFFFF * l + l) by (nonlinear_arith);
        lemma_mod_multiples_vanish(l as int, l as int, 0xFFFF);
    }
}

/// The 16-bit value with its two bytes swapped.
pub open spec fn swap16(x: int) -> int {
    256 * (x % 256) + x / 256
}

/// Law of the Internet checksum over data of even length started from zero:
/// the checksum read big-endian is the byte swap of the checksum read
/// little-endian. So the checksum, written back in the byte order it was
/// computed in, gives the same two bytes whichever order that is.
pub proof fn lemma_cksum16_orders_swap(s: Seq<u8>)
    requires
        s.len() % 2 == 0,
    ensures
        spec_cksum16(s, 0, false) == swap16(spec_cksum16(s, 0, true)),
{
    let n: nat = s.len() / 2;
    let l: nat = words_sum(s, n, true);
    let b: nat = words_sum(s, n, false);
    lemma_words_sum_swap(s, n);
    assert(bytes_sum(s, true) == l);
    assert(bytes_sum(s, false) == b);
    lemma_fold16(l);
    lemma_fold16(b);
    let x: int = fold16(l) as int;
    let y: int = fold16(b) as int;
    let sx: int = swap16(x);
    // 256 * x is the swap of x plus a multiple of 0xFFFF
    assert(256 * x == 0xFFFF * (x / 256) + sx);
    lemma_mul_mod_noop_general(256, l as int, 0xFFFF);
    lemma_mul_mod_noop_general(256, x, 0xFFFF);
    lemma_mod_multiples_vanish(x / 256, sx, 0xFFFF);
    assert(y % 0xFFFF == sx % 0xFFFF);
    assert(0 <= sx <= 0xFFFF);
    if x == 0 {
        assert(l == 0);
        assert(b == 0);
    } else {
        assert(y > 0);
        assert(sx > 0);
        if y < 0xFFFF && sx < 0xFFFF {
            assert(y == sx);
        }
    }
    let c: int = 0xFFFF - x;
    assert(swap16(c) == 0xFFFF - sx);
}

/// Replacing the zero word at byte offset `k` by `c` adds `c` to the sum of the
/// words that reach past it.
proof fn lemma_words_sum_replace(s: Seq<u8>, t: Seq<u8>, k: int, n: nat, little: bool)
    requires
        s.len() == t.len(),
        0 <= k,
        k % 2 == 0,
        k + 1 < s.len(),
        2 * n <= s.len(),
        s[k] == 0,
        s[k + 1] == 0,
        forall|j: int| 0 <= j < s.len() && j != k && j != k + 1 ==> t[j] == s[j],
    ensures
        words_sum(t, n, little) == words_sum(s, n, little) + if k < 2 * n {
            word16(t[k], t[k + 1], little)
        } else {
            0
        },
    decreases n,
{
    if n > 0 {
        lemma_words_sum_replace(s, t, k, (n - 1) as nat, little);
        if k != 2 * n - 2 {
            assert(t[2 * n - 2] == s[2 * n - 2]);
            assert(t[2 * n - 1] == s[2 * n - 1]);
        }
    }
}

/// Law of the Internet checksum: writing the checksum of data whose checksum
/// field holds zero into that field, in the byte order it was computed in,
/// gives data whose checksum is zero.
pub proof fn lemma_cksum16_verifies(s: Seq<u8>, t: Seq<u8>, k: int, little: bool)
    requires
        s.len() == t.len(),
        0 <= k,
        k % 2 == 0,
        k + 1 < s.len(),
        s[k] == 0,
        s[k + 1] == 0,
        forall|j: int| 0 <= j < s.len() && j != k && j != k + 1 ==> t[j] == s[j],
        word16(t[k], t[k + 1], little) == spec_cksum16(s, 0, little),
    ensures
        spec_cksum16(t, 0, little) == 0,
{
    let n: nat = s.len() / 2;
    let c: int = spec_cksum16(s, 0, little);
    lemma_words_sum_replace(s, t, k, n, little);
    let x: nat = bytes_sum(s, little);
    let y: nat = bytes_sum(t, little);
    if s.len() % 2 == 1 {
        assert(t[s.len() - 1] == s[s.len() - 1]);
    }
    lemma_fold16(x);
    assert(y == x + c);
    assert(c == 0xFFFF - fold16(x));
    // x - fold16(x) is a multiple of 0xFFFF, and so is y
    lemma_add_mod_noop(x - fold16(x), fold16(x) as int, 0xFFFF);
    lemma_add_mod_noop(x - fold16(x), 0xFFFF, 0xFFFF);
    lemma_fold16_all_ones(y);
}


pub const PLUS: u8 = 0x2B;
pub const DASH: u8 = 0x2D;
pub const BAR: u8 = 0x7C;
pub const SPACE: u8 = 0x20;
pub const NEWLINE: u8 = 0x0A;
pub const DOT: u8 = 0x2E;
pub const ZERO: u8 = 0x30;

/// Lower-case hexadecimal digit of `d` (which is below 16), as an ASCII byte.
pub open spec fn hex_digit(d: nat) -> u8 {
    if d < 10 {
        (0x30 + d) as u8
    } else {
        (0x57 + d) as u8
    }
}

/// Lower-case hexadecimal digits of `n`, most significant first, without
/// leading zeros.
pub open spec fn hex_digits(n: nat) -> Seq<u8>
    decreases n,
{
    if n < 16 {
        seq![hex_digit(n)]
    } else {
        hex_digits(n / 16).push(hex_digit(n % 16))
    }
}

/// `n` in lower-case hexadecimal, left-padded with `0` to at least `width`
/// digits (what `{:0width$x}` prints).
pub open spec fn hex_padded(n: nat, width: nat) -> Seq<u8> {
    let d = hex_digits(n);
    if d.len() < width {
        Seq::new((width - d.len()) as nat, |_i: int| ZERO) + d
    } else {
        d
    }
}

/// A printable ASCII character other than space.
pub open spec fn is_ascii_graphic(b: u8) -> bool {
    0x21 <= b <= 0x7E
}

/// `n` copies of byte `b`.
pub open spec fn repeat_byte(b: u8, n: nat) -> Seq<u8> {
    Seq::new(n, |_i: int| b)
}

/// The border line above and below a hex dump.
pub open spec fn hexdump_border() -> Seq<u8> {
    seq![PLUS] + repeat_byte(DASH, 6) + seq![PLUS] + repeat_byte(DASH, 49) + seq![PLUS]
        + repeat_byte(DASH, 18) + seq![PLUS, NEWLINE]
}

/// The first `k` of the 16 hex cells of a line: two digits and a space for
/// each byte of `chunk`, three spaces past its end.
pub open spec fn hex_cells(chunk: Seq<u8>, k: nat) -> Seq<u8>
    decreases k,
{
    if k == 0 {
        seq![]
    } else {
        hex_cells(chunk, (k - 1) as nat) + if k - 1 < chunk.len() {
            hex_padded(chunk[k - 1] as nat, 2).push(SPACE)
        } else {
            seq![SPACE, SPACE, SPACE]
        }
    }
}

/// The first `k` of the 16 text cells of a line: the byte itself when it is
/// graphic ASCII, `.` otherwise, a space past the end of `chunk`.
pub open spec fn text_cells(chunk: Seq<u8>, k: nat) -> Seq<u8>
    decreases k,
{
    if k == 0 {
        seq![]
    } else {
        text_cells(chunk, (k - 1) as nat).push(
            if k - 1 < chunk.len() {
                if is_ascii_graphic(chunk[k - 1]) {
                    chunk[k - 1]
                } else {
                    DOT
                }
            } else {
                SPACE
            },
        )
    }
}

/// One line of a hex dump: the offset, the hex cells and the text cells of a
/// chunk of at most 16 bytes.
pub open spec fn hexdump_line(chunk: Seq<u8>, offset: nat) -> Seq<u8> {
    seq![BAR, SPACE] + hex_padded(offset, 4) + seq![SPACE, BAR, SPACE] + hex_cells(chunk, 16)
        + seq![BAR, SPACE] + text_cells(chunk, 16) + seq![SPACE, BAR, NEWLINE]
}

/// The `k`-th chunk of 16 bytes of `data` (the last one may be shorter).
pub open spec fn hexdump_chunk(data: Seq<u8>, k: nat) -> Seq<u8> {
    let start: int = 16 * k as int;
    let end: int = if start + 16 <= data.len() {
        start + 16
    } else {
        data.len() as int
    };
    data.subrange(start as int, end)
}

/// The lines of the first `k` chunks of `data`.
pub open spec fn hexdump_lines(data: Seq<u8>, k: nat) -> Seq<u8>
    decreases k,
{
    if k == 0 {
        seq![]
    } else {
        hexdump_lines(data, (k - 1) as nat) + hexdump_line(
            hexdump_chunk(data, (k - 1) as nat),
            16 * (k - 1) as nat,
        )
    }
}

/// The whole hex dump of `data`: a border, one line per chunk of 16 bytes,
/// and a border.
pub open spec fn spec_hexdump(data: Seq<u8>) -> Seq<u8> {
    hexdump_border() + hexdump_lines(data, ((data.len() + 15) / 16) as nat) + hexdump_border()
}

/// `16` to the power `m`.
pub open spec fn pow16(m: nat) -> nat
    decreases m,
{
    if m == 0 {
        1
    } else {
        16 * pow16((m - 1) as nat)
    }
}

/// A number below `16^m` has at most `m` hex digits (and at least one).
proof fn lemma_hex_digits_short(n: nat, m: nat)
    requires
        m >= 1,
        n < pow16(m),
    ensures
        1 <= hex_digits(n).len() <= m,
    decreases m,
{
    if n >= 16 {
        if m == 1 {
            assert(pow16(1) == 16) by {
                reveal_with_fuel(pow16, 2);
            }
        }
        lemma_hex_digits_short(n / 16, (m - 1) as nat);
    }
}

/// Padding a number below `16^width` gives exactly `width` digits.
proof fn lemma_hex_padded_len(n: nat, width: nat)
    requires
        width >= 1,
        n < pow16(width),
    ensures
        hex_padded(n, width).len() == width,
{
    lemma_hex_digits_short(n, width);
}

proof fn lemma_hex_cells_len(chunk: Seq<u8>, k: nat)
    ensures
        hex_cells(chunk, k).len() == 3 * k,
    decreases k,
{
    if k > 0 {
        lemma_hex_cells_len(chunk, (k - 1) as nat);
        if k - 1 < chunk.len() {
            assert(pow16(2) == 256) by {
                reveal_with_fuel(pow16, 3);
            }
            lemma_hex_padded_len(chunk[k - 1] as nat, 2);
        }
    }
}

proof fn lemma_text_cells_len(chunk: Seq<u8>, k: nat)
    ensures
        text_cells(chunk, k).len() == k,
    decreases k,
{
    if k > 0 {
        lemma_text_cells_len(chunk, (k - 1) as nat);
    }
}

/// Every line of a dump whose offset has at most four hex digits is 78 bytes
/// long, as is the border.
proof fn lemma_hexdump_line_len(chunk: Seq<u8>, offset: nat)
    requires
        offset < 0x10000,
    ensures
        hexdump_line(chunk, offset).len() == 78,
        hexdump_border().len() == 78,
{
    assert(pow16(4) == 0x10000) by {
        reveal_with_fuel(pow16, 5);
    }
    lemma_hex_padded_len(offset, 4);
    lemma_hex_cells_len(chunk, 16);
    lemma_text_cells_len(chunk, 16);
}

proof fn lemma_hexdump_lines_len(data: Seq<u8>, k: nat)
    requires
        k <= 0x1000,
    ensures
        hexdump_lines(data, k).len() == 78 * k,
    decreases k,
{
    if k > 0 {
        lemma_hexdump_lines_len(data, (k - 1) as nat);
        lemma_hexdump_line_len(hexdump_chunk(data, (k - 1) as nat), 16 * (k - 1) as nat);
    }
}

/// Law of the hex dump: for data below 64 KiB (where every offset has four
/// hex digits) the dump is a border, exactly one 78-byte line for each
/// started chunk of 16 bytes (none for an empty chunk), and a border.
pub proof fn lemma_hexdump_len(data: Seq<u8>)
    requires
        data.len() < 0x10000,
    ensures
        spec_hexdump(data).len() == 78 * (2 + (data.len() + 15) / 16),
{
    lemma_hexdump_lines_len(data, ((data.len() + 15) / 16) as nat);
    lemma_hexdump_line_len(seq![], 0);
}

fn push_hex_digit(out: &mut Vec<u8>, d: usize)
    requires
        d < 16,
    ensures
        final(out)@ == old(out)@.push(hex_digit(d as nat)),
{
    if d < 10 {
        out.push(0x30 + d as u8);
    } else {
        out.push(0x57 + d as u8);
    }
}

fn push_hex_digits(out: &mut Vec<u8>, n: usize)
    ensures
        final(out)@ == old(out)@ + hex_digits(n as nat),
    decreases n,
{
    if n >= 16 {
        push_hex_digits(out, n / 16);
    }
    push_hex_digit(out, n % 16);
    assert(n < 16 ==> hex_digits(n as nat) == seq![hex_digit(n as nat)]);
}

fn hex_digits_len(n: usize) -> (r: usize)
    ensures
        r == hex_digits(n as nat).len(),
        r >= 1,
    decreases n,
{
    if n < 16 {
        1
    } else {
        let r: usize = hex_digits_len(n / 16);
        proof {
            lemma_hex_digits_len_bound((n / 16) as nat);
        }
        r + 1
    }
}

proof fn lemma_hex_digits_len_bound(n: nat)
    ensures
        hex_digits(n).len() <= n + 1,
    decreases n,
{
    if n >= 16 {
        lemma_hex_digits_len_bound(n / 16);
    }
}

fn push_hex_padded(out: &mut Vec<u8>, n: usize, width: usize)
    ensures
        final(out)@ == old(out)@ + hex_padded(n as nat, width as nat),
{
    let len: usize = hex_digits_len(n);
    let ghost start = out@;
    if len < width {
        let mut i: usize = 0;
        while i < width - len
            invariant
                len < width,
                i <= width - len,
                out@ == start + repeat_byte(ZERO, i as nat),
            decreases width - len - i,
        {
            out.push(ZERO);
            i = i + 1;
            assert(out@ =~= start + repeat_byte(ZERO, i as nat));
        }
    }
    push_hex_digits(out, n);
    assert(out@ =~= start + hex_padded(n as nat, width as nat));
}

fn push_repeat(out: &mut Vec<u8>, b: u8, n: usize)
    ensures
        final(out)@ == old(out)@ + repeat_byte(b, n as nat),
{
    let ghost start = out@;
    let mut i: usize = 0;
    while i < n
        invariant
            i <= n,
            out@ == start + repeat_byte(b, i as nat),
        decreases n - i,
    {
        out.push(b);
        i = i + 1;
        assert(out@ =~= start + repeat_byte(b, i as nat));
    }
}

fn push_border(out: &mut Vec<u8>)
    ensures
        final(out)@ == old(out)@ + hexdump_border(),
{
    let ghost start = out@;
    out.push(PLUS);
    push_repeat(out, DASH, 6);
    out.push(PLUS);
    push_repeat(out, DASH, 49);
    out.push(PLUS);
    push_repeat(out, DASH, 18);
    out.push(PLUS);
    out.push(NEWLINE);
    assert(out@ =~= start + hexdump_border());
}

fn push_line(out: &mut Vec<u8>, chunk: &[u8], offset: usize)
    requires
        chunk@.len() <= 16,
    ensures
        final(out)@ == old(out)@ + hexdump_line(chunk@, offset as nat),
{
    let ghost start = out@;
    out.push(BAR);
    out.push(SPACE);
    push_hex_padded(out, offset, 4);
    out.push(SPACE);
    out.push(BAR);
    out.push(SPACE);
    let ghost mid = out@;
    let mut index: usize = 0;
    while index < 16
        invariant
            index <= 16,
            out@ == mid + hex_cells(chunk@, index as nat),
        decreases 16 - index,
    {
        if index < chunk.len() {
            push_hex_padded(out, chunk[index] as usize, 2);
            out.push(SPACE);
        } else {
            out.push(SPACE);
            out.push(SPACE);
            out.push(SPACE);
        }
        index = index + 1;
        assert(out@ =~= mid + hex_cells(chunk@, index as nat));
    }
    out.push(BAR);
    out.push(SPACE);
    let ghost mid2 = out@;
    let mut index: usize = 0;
    while index < 16
        invariant
            index <= 16,
            out@ == mid2 + text_cells(chunk@, index as nat),
        decreases 16 - index,
    {
        if index < chunk.len() {
            let b: u8 = chunk[index];
            if 0x21 <= b && b <= 0x7E {
                out.push(b);
            } else {
                out.push(DOT);
            }
        } else {
            out.push(SPACE);
        }
        index = index + 1;
        assert(out@ =~= mid2 + text_cells(chunk@, index as nat));
    }
    out.push(SPACE);
    out.push(BAR);
    out.push(NEWLINE);
    assert(out@ =~= start + hexdump_line(chunk@, offset as nat));
}

/// The text of a hex dump of `data`: a border line, then for each chunk of 16
/// bytes its offset, its bytes in hex and its bytes as ASCII text, then a
/// border line.
pub fn hexdump(data: &[u8]) -> (out: Vec<u8>)
    ensures
        out@ == spec_hexdump(data@),
{
    let mut out: Vec<u8> = Vec::new();
    push_border(&mut out);
    let len: usize = data.len();
    let chunks: usize = len / 16 + if len % 16 == 0 { 0 } else { 1 };
    assert(chunks == (data@.len() + 15) / 16);
    let mut k: usize = 0;
    while k < chunks
        invariant
            k <= chunks,
            len == data@.len(),
            chunks == (data@.len() + 15) / 16,
            out@ == hexdump_border() + hexdump_lines(data@, k as nat),
        decreases chunks - k,
    {
        let start: usize = 16 * k;
        let end: usize = if len - start >= 16 { start + 16 } else { len };
        let chunk: &[u8] = &data[start..end];
        push_line(&mut out, chunk, start);
        k = k + 1;
        assert(chunk@ == hexdump_chunk(data@, (k - 1) as nat));
        assert(out@ =~= hexdump_border() + hexdump_lines(data@, k as nat));
    }
    push_border(&mut out);
    out
}

} // verus!
