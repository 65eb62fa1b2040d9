//! Text as the report needs it: the order of names, padding, and numbers
//! written out in decimal.

use vstd::prelude::*;
use vstd::string::StringSliceAdditionalSpecFns;
use vstd::utf8::encode_utf8;
use vstd::utf8::decode_utf8;
use vstd::utf8::encode_utf8_decode_utf8;
use vstd::utf8::encode_scalar;

verus! {

/// The texts that a list of strings holds.
pub open spec fn textos(v: Seq<String>) -> Seq<Seq<char>> {
    v.map_values(|s: String| s@)
}

/// Whether `a` and `b` agree before place `k`, and at `k` either `a` ends
/// while `b` goes on, or `a` holds the smaller byte.
pub open spec fn decide_em(a: Seq<u8>, b: Seq<u8>, k: int) -> bool {
    &&& 0 <= k <= a.len()
    &&& k < b.len()
    &&& forall|j: int| 0 <= j < k ==> a[j] == b[j]
    &&& k < a.len() ==> a[k] < b[k]
}

/// Byte sequences in dictionary order, strictly.
pub open spec fn bytes_precedem(a: Seq<u8>, b: Seq<u8>) -> bool {
    exists|k: int| decide_em(a, b, k)
}

/// Texts in the order of their UTF-8 bytes, strictly: the order in which
/// strings compare.
pub open spec fn precede(a: Seq<char>, b: Seq<char>) -> bool {
    bytes_precedem(encode_utf8(a), encode_utf8(b))
}

/// The order of byte sequences is transitive.
pub proof fn lema_bytes_transitivo(a: Seq<u8>, b: Seq<u8>, c: Seq<u8>)
    requires
        bytes_precedem(a, b),
        bytes_precedem(b, c),
    ensures
        bytes_precedem(a, c),
{
    let k1 = choose|k: int| decide_em(a, b, k);
    let k2 = choose|k: int| decide_em(b, c, k);
    let k = if k1 <= k2 {
        k1
    } else {
        k2
    };
    assert(decide_em(a, c, k));
}

/// Where two byte sequences agree up to place `i`, the first place at
/// which they part, or at which one ends, is found from there on.
proof fn lema_bytes_total_desde(a: Seq<u8>, b: Seq<u8>, i: int)
    requires
        0 <= i <= a.len(),
        i <= b.len(),
        forall|j: int| 0 <= j < i ==> a[j] == b[j],
    ensures
        bytes_precedem(a, b) || a == b || bytes_precedem(b, a),
    decreases a.len() - i,
{
    if i == a.len() {
        if i == b.len() {
            assert(a =~= b);
        } else {
            assert(decide_em(a, b, i));
        }
    } else if i == b.len() {
        assert(decide_em(b, a, i));
    } else if a[i] < b[i] {
        assert(decide_em(a, b, i));
    } else if b[i] < a[i] {
        assert(decide_em(b, a, i));
    } else {
        lema_bytes_total_desde(a, b, i + 1);
    }
}

/// Of two texts one stands before the other, unless they are the same.
pub proof fn lema_precede_total(a: Seq<char>, b: Seq<char>)
    ensures
        precede(a, b) || a == b || precede(b, a),
{
    lema_bytes_total_desde(encode_utf8(a), encode_utf8(b), 0);
    if encode_utf8(a) == encode_utf8(b) {
        encode_utf8_decode_utf8(a);
        encode_utf8_decode_utf8(b);
        assert(decode_utf8(encode_utf8(a)) == decode_utf8(encode_utf8(b)));
    }
}

/// No text stands before itself, and of two texts at most one stands
/// before the other.
pub proof fn lema_precede_estrito(a: Seq<char>, b: Seq<char>)
    ensures
        !precede(a, a),
        !(precede(a, b) && precede(b, a)),
{
    if precede(a, b) && precede(b, a) {
        lema_bytes_transitivo(encode_utf8(a), encode_utf8(b), encode_utf8(a));
    }
}

/// The order of texts is transitive.
pub proof fn lema_precede_transitivo(a: Seq<char>, b: Seq<char>, c: Seq<char>)
    requires
        precede(a, b),
        precede(b, c),
    ensures
        precede(a, c),
{
    lema_bytes_transitivo(encode_utf8(a), encode_utf8(b), encode_utf8(c));
}

/// Whether `a` stands before `b` in the order of strings.
pub fn menor(a: &str, b: &str) -> (r: bool)
    ensures
        r == precede(a@, b@),
{
    let x = a.as_bytes();
    let y = b.as_bytes();
    let mut i: usize = 0;
    while i < x.len() && i < y.len()
        invariant
            i <= x.len(),
            i <= y.len(),
            x@ == encode_utf8(a@),
            y@ == encode_utf8(b@),
            forall|j: int| 0 <= j < i ==> x@[j] == y@[j],
        decreases x.len() - i,
    {
        if x[i] != y[i] {
            proof {
                if x@[i as int] < y@[i as int] {
                    assert(decide_em(x@, y@, i as int));
                } else {
                    assert forall|k: int| !decide_em(x@, y@, k) by {
                        if decide_em(x@, y@, k) {
                            if k > i {
                                assert(x@[i as int] == y@[i as int]);
                            }
                        }
                    }
                }
            }
            return x[i] < y[i];
        }
        i = i + 1;
    }
    proof {
        if x.len() < y.len() {
            assert(decide_em(x@, y@, i as int));
        } else {
            assert forall|k: int| !decide_em(x@, y@, k) by {}
        }
    }
    x.len() < y.len()
}

/// A text has at least as many bytes as characters.
pub proof fn lema_bytes_cobrem_caracteres(s: Seq<char>)
    ensures
        s.len() <= encode_utf8(s).len(),
    decreases s.len(),
{
    if s.len() > 0 {
        lema_bytes_cobrem_caracteres(s.drop_first());
        assert(encode_scalar(s[0] as u32).len() >= 1);
    }
}

/// `n` fill characters, none where `n` is not positive.
pub open spec fn pontos(n: int) -> Seq<char> {
    Seq::new(
        if n > 0 {
            n as nat
        } else {
            0
        },
        |i: int| '.',
    )
}

/// Adds `n` fill characters to the end of `texto`.
pub fn preenche(texto: &mut String, n: usize)
    ensures
        final(texto)@ == old(texto)@ + pontos(n as int),
{
    let mut k: usize = 0;
    while k < n
        invariant
            k <= n,
            texto@ == old(texto)@ + pontos(k as int),
        decreases n - k,
    {
        proof {
            reveal_strlit(".");
        }
        texto.append(".");
        k = k + 1;
        assert(texto@ =~= old(texto)@ + pontos(k as int));
    }
}

/// The character of one decimal digit.
pub open spec fn algarismo(d: nat) -> char {
    if d == 0 {
        '0'
    } else if d == 1 {
        '1'
    } else if d == 2 {
        '2'
    } else if d == 3 {
        '3'
    } else if d == 4 {
        '4'
    } else if d == 5 {
        '5'
    } else if d == 6 {
        '6'
    } else if d == 7 {
        '7'
    } else if d == 8 {
        '8'
    } else {
        '9'
    }
}

/// A number written in decimal, without leading zeros.
pub open spec fn algarismos(n: nat) -> Seq<char>
    decreases n,
{
    if n < 10 {
        seq![algarismo(n)]
    } else {
        algarismos(n / 10).push(algarismo(n % 10))
    }
}

/// One decimal digit as text.
fn algarismo_texto(d: u128) -> (r: &'static str)
    requires
        d < 10,
    ensures
        r@ == seq![algarismo(d as nat)],
{
    proof {
        reveal_strlit("0");
        reveal_strlit("1");
        reveal_strlit("2");
        reveal_strlit("3");
        reveal_strlit("4");
        reveal_strlit("5");
        reveal_strlit("6");
        reveal_strlit("7");
        reveal_strlit("8");
        reveal_strlit("9");
    }
    let r = match d {
        0 => "0",
        1 => "1",
        2 => "2",
        3 => "3",
        4 => "4",
        5 => "5",
        6 => "6",
        7 => "7",
        8 => "8",
        _ => "9",
    };
    assert(r@ =~= seq![algarismo(d as nat)]);
    r
}

/// Writes `n` in decimal.
pub fn decimal(n: u128) -> (r: String)
    ensures
        r@ == algarismos(n as nat),
    decreases n,
{
    if n < 10 {
        String::from_str(algarismo_texto(n))
    } else {
        let mut r = decimal(n / 10);
        r.append(algarismo_texto(n % 10));
        assert(r@ =~= algarismos(n as nat));
        r
    }
}

/// The last place of `d` that holds the character `c`, or -1 where none
/// does.
pub open spec fn ultimo(d: Seq<char>, c: char) -> int
    decreases d.len(),
{
    if d.len() == 0 {
        -1
    } else if d.last() == c {
        d.len() - 1
    } else {
        ultimo(d.drop_last(), c)
    }
}

/// `ultimo` is a place that holds the character, with none behind it
/// that does, and -1 exactly where no place holds it.
pub proof fn lema_ultimo(d: Seq<char>, c: char)
    ensures
        -1 <= ultimo(d, c) < d.len(),
        ultimo(d, c) >= 0 <==> d.contains(c),
        ultimo(d, c) >= 0 ==> d[ultimo(d, c)] == c,
        forall|j: int| ultimo(d, c) < j < d.len() ==> d[j] != c,
    decreases d.len(),
{
    if d.len() == 0 {
    } else if d.last() == c {
        assert(d[d.len() - 1] == c);
    } else {
        let p = d.drop_last();
        lema_ultimo(p, c);
        if ultimo(p, c) >= 0 {
            assert(d[ultimo(p, c)] == p[ultimo(p, c)]);
        }
        if d.contains(c) {
            let k = choose|k: int| 0 <= k < d.len() && d[k] == c;
            assert(p[k] == c);
        }
        assert forall|j: int| ultimo(d, c) < j < d.len() implies d[j] != c by {
            if j < p.len() {
                assert(p[j] == d[j]);
            }
        }
    }
}

/// A place that holds the character and has none behind it that does is
/// the last one.
pub proof fn lema_ultimo_achado(d: Seq<char>, c: char, i: int)
    requires
        0 <= i < d.len(),
        d[i] == c,
        forall|j: int| i < j < d.len() ==> d[j] != c,
    ensures
        ultimo(d, c) == i,
{
    lema_ultimo(d, c);
    assert(d.contains(c));
}

/// Looks for the last place of `s` that holds the character `c`.
pub fn acha_ultimo(s: &str, c: char) -> (r: Option<usize>)
    ensures
        r is Some <==> s@.contains(c),
        r matches Some(i) ==> i == ultimo(s@, c),
{
    let total: usize = s.unicode_len();
    let mut i: usize = total;
    while i > 0
        invariant
            i <= total,
            total == s@.len(),
            forall|j: int| i <= j < total ==> s@[j] != c,
        decreases i,
    {
        i = i - 1;
        if s.get_char(i) == c {
            proof {
                lema_ultimo_achado(s@, c, i as int);
            }
            return Some(i);
        }
    }
    None
}

} // verus!
