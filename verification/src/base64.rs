//! Base64 with the standard alphabet and padding.

use vstd::prelude::*;
use vstd::string::*;

verus! {

/// The character of a six-bit value.
pub open spec fn letter(v: int) -> char {
    if v < 26 {
        (65 + v) as u8 as char
    } else if v < 52 {
        (71 + v) as u8 as char
    } else if v < 62 {
        (v - 4) as u8 as char
    } else if v == 62 {
        '+'
    } else {
        '/'
    }
}

/// The four characters of up to three bytes. Missing bytes count as zero, and a character
/// that would hold none of the bytes is a padding sign.
pub open spec fn quad(b: Seq<u8>) -> Seq<char> {
    let b0 = b[0] as int;
    let b1 = if b.len() > 1 {
        b[1] as int
    } else {
        0
    };
    let b2 = if b.len() > 2 {
        b[2] as int
    } else {
        0
    };
    seq![
        letter(b0 / 4),
        letter((b0 % 4) * 16 + b1 / 16),
        if b.len() > 1 {
            letter((b1 % 16) * 4 + b2 / 64)
        } else {
            '='
        },
        if b.len() > 2 {
            letter(b2 % 64)
        } else {
            '='
        },
    ]
}

/// Bytes as base64, three at a time.
pub open spec fn encoded(b: Seq<u8>) -> Seq<char>
    decreases b.len(),
{
    if b.len() == 0 {
        Seq::empty()
    } else if b.len() <= 3 {
        quad(b)
    } else {
        quad(b.take(3)) + encoded(b.skip(3))
    }
}

fn letter_of(v: u8) -> (r: char)
    requires
        v < 64,
    ensures
        r == letter(v as int),
{
    if v < 26 {
        (65 + v) as char
    } else if v < 52 {
        (71 + v) as char
    } else if v < 62 {
        (v - 4) as char
    } else if v == 62 {
        '+'
    } else {
        '/'
    }
}

/// Bytes as base64.
pub fn base64(bytes: &[u8]) -> (r: String)
    ensures
        r@ == encoded(bytes@),
{
    let mut out = String::new();
    let n: usize = bytes.len();
    let mut i: usize = 0;
    assert(bytes@.skip(0) =~= bytes@);
    assert(out@ + encoded(bytes@) =~= encoded(bytes@));
    while i < n
        invariant
            i <= n == bytes@.len(),
            encoded(bytes@) == out@ + encoded(bytes@.skip(i as int)),
        decreases n - i,
    {
        let ghost rest = bytes@.skip(i as int);
        let ghost before = out@;
        let left: usize = n - i;
        let b0: u8 = bytes[i];
        let b1: u8 = if left > 1 {
            bytes[i + 1]
        } else {
            0
        };
        let b2: u8 = if left > 2 {
            bytes[i + 2]
        } else {
            0
        };
        out.push(letter_of(b0 / 4));
        out.push(letter_of((b0 % 4) * 16 + b1 / 16));
        out.push(
            if left > 1 {
                letter_of((b1 % 16) * 4 + b2 / 64)
            } else {
                '='
            },
        );
        out.push(
            if left > 2 {
                letter_of(b2 % 64)
            } else {
                '='
            },
        );
        if left > 3 {
            assert(out@ =~= before + quad(rest.take(3)));
            assert(rest.skip(3) =~= bytes@.skip(i + 3));
            assert(out@ + encoded(rest.skip(3)) =~= before + encoded(rest));
            i = i + 3;
        } else {
            assert(out@ =~= before + quad(rest));
            i = n;
            assert(bytes@.skip(n as int) =~= Seq::<u8>::empty());
            assert(out@ + encoded(bytes@.skip(n as int)) =~= before + encoded(rest));
        }
    }
    assert(bytes@.skip(n as int) =~= Seq::<u8>::empty());
    assert(out@ + Seq::<char>::empty() =~= out@);
    out
}

/// The six-bit value of a character.
pub open spec fn sextet(c: char) -> int {
    let v = c as u32 as int;
    if 65 <= v <= 90 {
        v - 65
    } else if 97 <= v <= 122 {
        v - 71
    } else if 48 <= v <= 57 {
        v + 4
    } else if c == '+' {
        62
    } else {
        63
    }
}

/// The bytes that four characters write.
pub open spec fn unquad(q: Seq<char>) -> Seq<u8> {
    let a = sextet(q[0]);
    let b = sextet(q[1]);
    let c = sextet(q[2]);
    let d = sextet(q[3]);
    let b0 = (a * 4 + b / 16) as u8;
    let b1 = ((b % 16) * 16 + c / 4) as u8;
    let b2 = ((c % 4) * 64 + d) as u8;
    if q[2] == '=' {
        seq![b0]
    } else if q[3] == '=' {
        seq![b0, b1]
    } else {
        seq![b0, b1, b2]
    }
}

/// The bytes that a base64 text writes.
pub open spec fn decoded(s: Seq<char>) -> Seq<u8>
    decreases s.len(),
{
    if s.len() < 4 {
        Seq::empty()
    } else {
        unquad(s.take(4)) + decoded(s.skip(4))
    }
}

proof fn letters_read_back(v: int)
    requires
        0 <= v < 64,
    ensures
        sextet(letter(v)) == v,
        letter(v) != '=',
{
}

proof fn quads_read_back(b: Seq<u8>)
    requires
        1 <= b.len() <= 3,
    ensures
        unquad(quad(b)) == b,
        quad(b).len() == 4,
{
    let b0 = b[0] as int;
    let b1 = if b.len() > 1 {
        b[1] as int
    } else {
        0
    };
    let b2 = if b.len() > 2 {
        b[2] as int
    } else {
        0
    };
    letters_read_back(b0 / 4);
    letters_read_back((b0 % 4) * 16 + b1 / 16);
    letters_read_back((b1 % 16) * 4 + b2 / 64);
    letters_read_back(b2 % 64);
    assert(unquad(quad(b)) =~= b);
}

/// Reading back what was written gives the same bytes, whatever they are.
pub proof fn base64_reads_back(b: Seq<u8>)
    ensures
        decoded(encoded(b)) == b,
    decreases b.len(),
{
    if b.len() == 0 {
        assert(decoded(encoded(b)) =~= b);
    } else if b.len() <= 3 {
        quads_read_back(b);
        let q = quad(b);
        assert(q.take(4) =~= q);
        assert(decoded(q.skip(4)) =~= Seq::<u8>::empty());
        assert(decoded(q) =~= b);
    } else {
        quads_read_back(b.take(3));
        base64_reads_back(b.skip(3));
        let q = quad(b.take(3));
        let s = encoded(b);
        assert(s.take(4) =~= q);
        assert(s.skip(4) =~= encoded(b.skip(3)));
        assert(b.take(3) + b.skip(3) =~= b);
    }
}

/// Base64 has four characters for every three bytes begun.
pub proof fn base64_length(b: Seq<u8>)
    ensures
        encoded(b).len() == (b.len() + 2) / 3 * 4,
    decreases b.len(),
{
    if b.len() > 3 {
        base64_length(b.skip(3));
    }
}

/// Padding signs stand at the end alone: one where two bytes are left over, two where one is.
pub proof fn padding_ends_the_text(b: Seq<u8>, i: int)
    requires
        0 <= i < encoded(b).len(),
    ensures
        encoded(b)[i] == '=' <==> i >= encoded(b).len() - (3 - b.len() % 3) % 3,
    decreases b.len(),
{
    base64_length(b);
    if b.len() <= 3 {
        quad_padding(b);
    } else {
        quad_padding(b.take(3));
        base64_length(b.skip(3));
        if i < 4 {
            assert(encoded(b)[i] == quad(b.take(3))[i]);
        } else {
            assert(encoded(b)[i] == encoded(b.skip(3))[i - 4]);
            padding_ends_the_text(b.skip(3), i - 4);
        }
    }
}

proof fn quad_padding(b: Seq<u8>)
    requires
        1 <= b.len() <= 3,
    ensures
        quad(b).len() == 4,
        quad(b)[0] != '=' && quad(b)[1] != '=',
        quad(b)[2] == '=' <==> b.len() == 1,
        quad(b)[3] == '=' <==> b.len() < 3,
{
    let b0 = b[0] as int;
    let b1 = if b.len() > 1 {
        b[1] as int
    } else {
        0
    };
    let b2 = if b.len() > 2 {
        b[2] as int
    } else {
        0
    };
    letters_read_back(b0 / 4);
    letters_read_back((b0 % 4) * 16 + b1 / 16);
    letters_read_back((b1 % 16) * 4 + b2 / 64);
    letters_read_back(b2 % 64);
}

} // verus!
