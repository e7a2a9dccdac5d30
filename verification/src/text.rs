//! Hexadecimal and decimal text: what is written for a number, and how the
//! number is read back from what was written.

use vstd::prelude::*;
use vstd::string::*;

verus! {

/// The character for a decimal digit.
pub open spec fn digit_char(d: nat) -> char {
    if d == 0 {
        '0'
    } else if d == 1 {
        '1'
    } else if d == 2 {
        '2'
    } else if d == 3 {
        '3'
    } else if d == 4 {
        '4'
    } else if d == 5 {
        '5'
    } else if d == 6 {
        '6'
    } else if d == 7 {
        '7'
    } else if d == 8 {
        '8'
    } else {
        '9'
    }
}

/// The character for a hexadecimal digit, in lower case.
pub open spec fn hex_char(d: nat) -> char {
    if d < 10 {
        digit_char(d)
    } else if d == 10 {
        'a'
    } else if d == 11 {
        'b'
    } else if d == 12 {
        'c'
    } else if d == 13 {
        'd'
    } else if d == 14 {
        'e'
    } else {
        'f'
    }
}

/// Whether the character is one of the ten decimal digits.
pub open spec fn is_digit(c: char) -> bool {
    c == '0' || c == '1' || c == '2' || c == '3' || c == '4' || c == '5' || c == '6' || c == '7'
        || c == '8' || c == '9'
}

/// The number that a decimal digit stands for; zero for any other character.
pub open spec fn digit_value(c: char) -> nat {
    if c == '1' {
        1
    } else if c == '2' {
        2
    } else if c == '3' {
        3
    } else if c == '4' {
        4
    } else if c == '5' {
        5
    } else if c == '6' {
        6
    } else if c == '7' {
        7
    } else if c == '8' {
        8
    } else if c == '9' {
        9
    } else {
        0
    }
}

/// The number that a lower-case hexadecimal digit stands for; zero for any
/// other character.
pub open spec fn hex_value(c: char) -> nat {
    if c == 'a' {
        10
    } else if c == 'b' {
        11
    } else if c == 'c' {
        12
    } else if c == 'd' {
        13
    } else if c == 'e' {
        14
    } else if c == 'f' {
        15
    } else {
        digit_value(c)
    }
}

/// Two hexadecimal digits for each byte, the high half first.
pub open spec fn hex_text(bytes: Seq<u8>) -> Seq<char> {
    Seq::new(
        2 * bytes.len(),
        |i: int|
            if i % 2 == 0 {
                hex_char(bytes[i / 2] as nat / 16)
            } else {
                hex_char(bytes[i / 2] as nat % 16)
            },
    )
}

/// The bytes that pairs of hexadecimal digits spell.
pub open spec fn hex_decode(text: Seq<char>) -> Seq<u8> {
    Seq::new(
        text.len() / 2,
        |i: int| ((hex_value(text[2 * i]) * 16 + hex_value(text[2 * i + 1])) % 256) as u8,
    )
}

/// Reading hexadecimal text back gives the bytes that were written.
pub proof fn lemma_hex_decode_inverts(bytes: Seq<u8>)
    ensures
        hex_decode(hex_text(bytes)) == bytes,
{
    let text = hex_text(bytes);
    assert forall|i: int| 0 <= i < bytes.len() implies hex_decode(text)[i] == bytes[i] by {
        let b = bytes[i] as nat;
        assert((2 * i) % 2 == 0 && (2 * i) / 2 == i);
        assert((2 * i + 1) % 2 == 1 && (2 * i + 1) / 2 == i);
        assert(text[2 * i] == hex_char(b / 16));
        assert(text[2 * i + 1] == hex_char(b % 16));
        assert(hex_value(hex_char(b / 16)) == b / 16);
        assert(hex_value(hex_char(b % 16)) == b % 16);
    }
    assert(hex_decode(text) =~= bytes);
}

/// The text of one decimal digit.
pub(crate) fn digit_str(d: u8) -> (s: &'static str)
    requires
        d < 10,
    ensures
        s@ == seq![digit_char(d as nat)],
{
    proof {
        reveal_strlit("0");
        reveal_strlit("1");
        reveal_strlit("2");
        reveal_strlit("3");
        reveal_strlit("4");
        reveal_strlit("5");
        reveal_strlit("6");
        reveal_strlit("7");
        reveal_strlit("8");
        reveal_strlit("9");
    }
    let s = if d == 0 {
        "0"
    } else if d == 1 {
        "1"
    } else if d == 2 {
        "2"
    } else if d == 3 {
        "3"
    } else if d == 4 {
        "4"
    } else if d == 5 {
        "5"
    } else if d == 6 {
        "6"
    } else if d == 7 {
        "7"
    } else if d == 8 {
        "8"
    } else {
        "9"
    };
    assert(s@ =~= seq![digit_char(d as nat)]);
    s
}

/// The text of one hexadecimal digit.
fn hex_str(d: u8) -> (s: &'static str)
    requires
        d < 16,
    ensures
        s@ == seq![hex_char(d as nat)],
{
    proof {
        reveal_strlit("a");
        reveal_strlit("b");
        reveal_strlit("c");
        reveal_strlit("d");
        reveal_strlit("e");
        reveal_strlit("f");
    }
    if d < 10 {
        digit_str(d)
    } else {
        let s = if d == 10 {
            "a"
        } else if d == 11 {
            "b"
        } else if d == 12 {
            "c"
        } else if d == 13 {
            "d"
        } else if d == 14 {
            "e"
        } else {
            "f"
        };
        assert(s@ =~= seq![hex_char(d as nat)]);
        s
    }
}

/// The number that a character stands for as a decimal digit.
pub(crate) fn digit_of(c: char) -> (d: u8)
    ensures
        d as nat == digit_value(c),
        d < 10,
{
    if c == '1' {
        1
    } else if c == '2' {
        2
    } else if c == '3' {
        3
    } else if c == '4' {
        4
    } else if c == '5' {
        5
    } else if c == '6' {
        6
    } else if c == '7' {
        7
    } else if c == '8' {
        8
    } else if c == '9' {
        9
    } else {
        0
    }
}

/// The number that a character stands for as a hexadecimal digit.
fn hex_of(c: char) -> (d: u8)
    ensures
        d as nat == hex_value(c),
        d < 16,
{
    if c == 'a' {
        10
    } else if c == 'b' {
        11
    } else if c == 'c' {
        12
    } else if c == 'd' {
        13
    } else if c == 'e' {
        14
    } else if c == 'f' {
        15
    } else {
        digit_of(c)
    }
}

/// The characters of a string, in order.
pub fn chars_of(text: &str) -> (chars: Vec<char>)
    ensures
        chars@ == text@,
{
    let mut chars: Vec<char> = Vec::new();
    for c in it: text.chars()
        invariant
            it.seq() == text@,
            chars@ == text@.take(it.index() as int),
    {
        chars.push(c);
        assert(text@.take(it.index() + 1) =~= text@.take(it.index() as int).push(c));
    }
    assert(text@.take(text@.len() as int) =~= text@);
    chars
}

/// Appends the hexadecimal text of `bytes` to `out`.
pub fn append_hex<const N: usize>(out: &mut String, bytes: &[u8; N])
    ensures
        final(out)@ == old(out)@ + hex_text(bytes@),
{
    let mut i: usize = 0;
    assert(hex_text(bytes@.take(0)) =~= Seq::<char>::empty());
    assert(out@ =~= old(out)@ + hex_text(bytes@.take(0)));
    while i < N
        invariant
            i <= N,
            bytes@.len() == N,
            out@ == old(out)@ + hex_text(bytes@.take(i as int)),
        decreases N - i,
    {
        let b: u8 = bytes[i];
        let before = Ghost(out@);
        out.append(hex_str(b / 16));
        out.append(hex_str(b % 16));
        proof {
            let shorter = hex_text(bytes@.take(i as int));
            let longer = hex_text(bytes@.take(i + 1));
            let pair = seq![hex_char(b as nat / 16)] + seq![hex_char(b as nat % 16)];
            assert forall|k: int| 0 <= k < longer.len() implies longer[k] == (shorter + pair)[k] by {
                if k < 2 * i {
                    assert(bytes@.take(i + 1)[k / 2] == bytes@.take(i as int)[k / 2]);
                } else {
                    assert(k / 2 == i);
                    assert(bytes@.take(i + 1)[k / 2] == b);
                }
            }
            assert(longer =~= shorter + pair);
            assert(out@ =~= old(out)@ + longer);
        }
        i = i + 1;
    }
    assert(bytes@.take(N as int) =~= bytes@);
}

/// Reads `2 * N` hexadecimal digits of `chars`, from position `from` on, as
/// `N` bytes.
pub fn decode_hex<const N: usize>(chars: &Vec<char>, from: usize) -> (bytes: [u8; N])
    requires
        from + 2 * N <= chars.len(),
    ensures
        bytes@ == hex_decode(chars@.subrange(from as int, from + 2 * N)),
{
    let mut bytes: [u8; N] = [0u8; N];
    let mut i: usize = 0;
    let ghost text = chars@.subrange(from as int, from + 2 * N);
    while i < N
        invariant
            i <= N,
            from + 2 * N <= chars.len(),
            text == chars@.subrange(from as int, from + 2 * N),
            bytes@.len() == N,
            forall|k: int| 0 <= k < i ==> bytes@[k] == hex_decode(text)[k],
        decreases N - i,
    {
        let hi: u8 = hex_of(chars[from + 2 * i]);
        let lo: u8 = hex_of(chars[from + 2 * i + 1]);
        assert(text[2 * i] == chars@[from + 2 * i]);
        assert(text[2 * i + 1] == chars@[from + 2 * i + 1]);
        bytes[i] = hi * 16 + lo;
        i = i + 1;
    }
    assert(bytes@ =~= hex_decode(text));
    bytes
}

} // verus!
