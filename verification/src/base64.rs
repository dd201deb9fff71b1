//! Base64 in its standard alphabet, with padding.

use vstd::prelude::*;

verus! {

/// The character of a value below 64.
pub open spec fn symbol_of(v: int) -> char {
    if v < 26 {
        ('A' as u32 + v) as char
    } else if v < 52 {
        ('a' as u32 + (v - 26)) as char
    } else if v < 62 {
        ('0' as u32 + (v - 52)) as char
    } else if v == 62 {
        '+'
    } else {
        '/'
    }
}

/// The text of one group of one to three bytes.
pub open spec fn group_of(g: Seq<u8>) -> Seq<char> {
    let b0 = g[0] as int;
    let b1 = if g.len() > 1 {
        g[1] as int
    } else {
        0
    };
    let b2 = if g.len() > 2 {
        g[2] as int
    } else {
        0
    };
    let n = b0 * 65536 + b1 * 256 + b2;
    seq![
        symbol_of(n / 262144),
        symbol_of(n / 4096 % 64),
        if g.len() > 1 {
            symbol_of(n / 64 % 64)
        } else {
            '='
        },
        if g.len() > 2 {
            symbol_of(n % 64)
        } else {
            '='
        },
    ]
}

/// The text of a run of bytes: that of its groups of three, the last of which may be shorter.
pub open spec fn base64_of(data: Seq<u8>) -> Seq<char>
    decreases data.len(),
{
    if data.len() == 0 {
        Seq::empty()
    } else if data.len() <= 3 {
        group_of(data)
    } else {
        group_of(data.subrange(0, 3)) + base64_of(data.subrange(3, data.len() as int))
    }
}

/// The value of a character of the alphabet.
pub open spec fn value_of(c: char) -> int {
    if 'A' <= c <= 'Z' {
        c as u32 - 'A' as u32
    } else if 'a' <= c <= 'z' {
        c as u32 - 'a' as u32 + 26
    } else if '0' <= c <= '9' {
        c as u32 - '0' as u32 + 52
    } else if c == '+' {
        62
    } else {
        63
    }
}

/// The bytes of one group of four characters.
pub open spec fn bytes_of_group(t: Seq<char>) -> Seq<u8> {
    let n = value_of(t[0]) * 262144 + value_of(t[1]) * 4096 + (if t[2] == '=' {
        0
    } else {
        value_of(t[2])
    }) * 64 + (if t[3] == '=' {
        0
    } else {
        value_of(t[3])
    });
    let all = seq![(n / 65536) as u8, (n / 256 % 256) as u8, (n % 256) as u8];
    if t[2] == '=' {
        all.take(1)
    } else if t[3] == '=' {
        all.take(2)
    } else {
        all
    }
}

/// The bytes that a text in base64 stands for.
pub open spec fn bytes_of(text: Seq<char>) -> Seq<u8>
    decreases text.len(),
{
    if text.len() < 4 {
        Seq::empty()
    } else {
        bytes_of_group(text.subrange(0, 4)) + bytes_of(text.subrange(4, text.len() as int))
    }
}

proof fn lemma_symbol(v: int)
    requires
        0 <= v < 64,
    ensures
        value_of(symbol_of(v)) == v,
        symbol_of(v) != '=',
{
}

/// A number below 2^24 in base 64 and in base 256.
proof fn lemma_digits(b0: int, b1: int, b2: int)
    requires
        0 <= b0 < 256,
        0 <= b1 < 256,
        0 <= b2 < 256,
    ensures
        ({
            let n = b0 * 65536 + b1 * 256 + b2;
            &&& 0 <= n / 262144 < 64
            &&& n == (n / 262144) * 262144 + (n / 4096 % 64) * 4096 + (n / 64 % 64) * 64 + n % 64
            &&& n / 65536 == b0
            &&& n / 256 % 256 == b1
            &&& n % 256 == b2
        }),
{
    let n = b0 * 65536 + b1 * 256 + b2;
    let q1 = n / 64;
    let q2 = q1 / 64;
    let q3 = q2 / 64;
    assert(n / 4096 == q2);
    assert(n / 262144 == q3);
    assert(n == q1 * 64 + n % 64);
    assert(q1 == q2 * 64 + q1 % 64);
    assert(q2 == q3 * 64 + q2 % 64);
    assert(n / 256 == b0 * 256 + b1);
}

proof fn lemma_group(g: Seq<u8>)
    requires
        1 <= g.len() <= 3,
    ensures
        group_of(g).len() == 4,
        bytes_of_group(group_of(g)) == g,
{
    let b0 = g[0] as int;
    let b1 = if g.len() > 1 {
        g[1] as int
    } else {
        0
    };
    let b2 = if g.len() > 2 {
        g[2] as int
    } else {
        0
    };
    let n = b0 * 65536 + b1 * 256 + b2;
    lemma_digits(b0, b1, b2);
    let (d0, d1, d2, d3) = (n / 262144, n / 4096 % 64, n / 64 % 64, n % 64);
    lemma_symbol(d0);
    lemma_symbol(d1);
    lemma_symbol(d2);
    lemma_symbol(d3);
    let t = group_of(g);
    assert(g.len() == 1 ==> d2 == 0 && d3 == 0) by {
        if g.len() == 1 {
            assert(n / 64 == b0 * 1024);
        }
    }
    assert(g.len() == 2 ==> d3 == 0);
    let all = seq![b0 as u8, b1 as u8, b2 as u8];
    assert(bytes_of_group(t) == if t[2] == '=' {
        all.take(1)
    } else if t[3] == '=' {
        all.take(2)
    } else {
        all
    });
    assert(bytes_of_group(t) =~= g);
}

/// The text of a run of bytes stands for those bytes.
pub proof fn law_base64_round_trip(data: Seq<u8>)
    ensures
        bytes_of(base64_of(data)) == data,
    decreases data.len(),
{
    if data.len() == 0 {
        assert(bytes_of(base64_of(data)) =~= data);
    } else if data.len() <= 3 {
        lemma_group(data);
        let t = group_of(data);
        assert(t.subrange(0, 4) =~= t);
        assert(t.subrange(4, 4) =~= Seq::<char>::empty());
        assert(bytes_of(Seq::<char>::empty()) =~= Seq::<u8>::empty());
        assert(bytes_of(t) == bytes_of_group(t) + bytes_of(t.subrange(4, 4)));
        assert(bytes_of(t) =~= data);
    } else {
        let head = data.subrange(0, 3);
        let tail = data.subrange(3, data.len() as int);
        lemma_group(head);
        law_base64_round_trip(tail);
        let t = group_of(head) + base64_of(tail);
        assert(t.subrange(0, 4) =~= group_of(head));
        assert(t.subrange(4, t.len() as int) =~= base64_of(tail));
        assert(head + tail =~= data);
    }
}

/// The text is made of whole groups of four characters, one for every three bytes begun.
pub proof fn law_base64_length(data: Seq<u8>)
    ensures
        base64_of(data).len() == (data.len() + 2) / 3 * 4,
    decreases data.len(),
{
    if data.len() > 3 {
        law_base64_length(data.subrange(3, data.len() as int));
    }
}

fn symbol(v: u32) -> (c: char)
    requires
        v < 64,
    ensures
        c == symbol_of(v as int),
{
    if v < 26 {
        (65u8 + v as u8) as char
    } else if v < 52 {
        (97u8 + (v - 26) as u8) as char
    } else if v < 62 {
        (48u8 + (v - 52) as u8) as char
    } else if v == 62 {
        '+'
    } else {
        '/'
    }
}

/// Encodes a run of bytes.
pub fn base64_encode(data: &[u8]) -> (r: String)
    ensures
        r@ == base64_of(data@),
{
    let mut out = String::new();
    let n: usize = data.len();
    let mut i: usize = 0;
    proof {
        assert(data@.subrange(0, n as int) =~= data@);
        assert(Seq::<char>::empty() + base64_of(data@) =~= base64_of(data@));
    }
    while i < n
        invariant
            i <= n,
            n == data@.len(),
            base64_of(data@) == out@ + base64_of(data@.subrange(i as int, n as int)),
        decreases n - i,
    {
        let left: usize = n - i;
        let b0: u32 = data[i] as u32;
        let b1: u32 = if left > 1 {
            data[i + 1] as u32
        } else {
            0
        };
        let b2: u32 = if left > 2 {
            data[i + 2] as u32
        } else {
            0
        };
        let w: u32 = b0 * 65536 + b1 * 256 + b2;
        let c0 = symbol(w / 262144);
        let c1 = symbol(w / 4096 % 64);
        let c2 = if left > 1 {
            symbol(w / 64 % 64)
        } else {
            '='
        };
        let c3 = if left > 2 {
            symbol(w % 64)
        } else {
            '='
        };
        let ghost before = out@;
        let ghost rest = data@.subrange(i as int, n as int);
        out.push(c0);
        out.push(c1);
        out.push(c2);
        out.push(c3);
        let step: usize = if left > 3 {
            3
        } else {
            left
        };
        proof {
            let g = rest.subrange(0, step as int);
            assert(g[0] == data@[i as int]);
            assert(group_of(g) =~= seq![c0, c1, c2, c3]);
            assert(out@ =~= before + group_of(g));
            if left <= 3 {
                assert(g =~= rest);
                assert(data@.subrange(i + step, n as int) =~= Seq::<u8>::empty());
                assert(out@ + base64_of(Seq::<u8>::empty()) =~= before + group_of(rest));
            } else {
                assert(rest.subrange(3, rest.len() as int) =~= data@.subrange(i + 3, n as int));
                assert(out@ + base64_of(data@.subrange(i + 3, n as int)) =~= before + (group_of(g)
                    + base64_of(data@.subrange(i + 3, n as int))));
            }
        }
        i = i + step;
    }
    proof {
        assert(data@.subrange(n as int, n as int) =~= Seq::<u8>::empty());
        assert(out@ + Seq::<char>::empty() =~= out@);
    }
    out
}

/// The values count through the alphabet in its order.
pub proof fn law_alphabet(v: int)
    requires
        0 <= v < 64,
    ensures
        symbol_of(v) == "ABCDEFGHIJKLMNOPQRSTUVWXYZabcdefghijklmnopqrstuvwxyz0123456789+/"@[v],
{
    reveal_strlit("ABCDEFGHIJKLMNOPQRSTUVWXYZabcdefghijklmnopqrstuvwxyz0123456789+/");
}

/// Three bytes become four characters of six bits each, the highest bits first; the last byte may
/// be missing, and then both; a missing character is an equals sign.
pub proof fn law_groups_of_six_bits(v0: int, v1: int, v2: int, v3: int)
    requires
        0 <= v0 < 64,
        0 <= v1 < 64,
        0 <= v2 < 64,
        0 <= v3 < 64,
    ensures
        ({
            let a = (v0 * 4 + v1 / 16) as u8;
            let b = (v1 % 16 * 16 + v2 / 4) as u8;
            let c = (v2 % 4 * 64 + v3) as u8;
            &&& base64_of(seq![a, b, c]) == seq![
                symbol_of(v0),
                symbol_of(v1),
                symbol_of(v2),
                symbol_of(v3),
            ]
            &&& v2 % 4 == 0 ==> base64_of(seq![a, b]) == seq![
                symbol_of(v0),
                symbol_of(v1),
                symbol_of(v2),
                '=',
            ]
            &&& v1 % 16 == 0 ==> base64_of(seq![a]) == seq![symbol_of(v0), symbol_of(v1), '=', '=']
        }),
{
    let a: int = v0 * 4 + v1 / 16;
    let b: int = v1 % 16 * 16 + v2 / 4;
    let c: int = v2 % 4 * 64 + v3;
    let n: int = a * 65536 + b * 256 + c;
    assert(n == v0 * 262144 + v1 * 4096 + v2 * 64 + v3);
    assert(n / 262144 == v0);
    assert(n / 4096 == v0 * 64 + v1);
    assert(n / 64 == (v0 * 64 + v1) * 64 + v2);
    if v2 % 4 == 0 {
        let m: int = a * 65536 + b * 256;
        assert(m == v0 * 262144 + v1 * 4096 + v2 * 64);
        assert(m / 262144 == v0);
        assert(m / 4096 == v0 * 64 + v1);
        assert(m / 64 == (v0 * 64 + v1) * 64 + v2);
    }
    if v1 % 16 == 0 {
        let m: int = a * 65536;
        assert(m == v0 * 262144 + v1 * 4096);
        assert(m / 262144 == v0);
        assert(m / 4096 == v0 * 64 + v1);
    }
}

} // verus!
