//! Positional numerals with single-character digits, as the `based` crate
//! provides them, and the lowercase base-26 system built on them.
use vstd::prelude::*;

verus! {

/// `based::Base`, a numeral system with single-character digits, held
/// opaque; what it holds is named by `base_digits`.
#[verifier::external_type_specification]
#[verifier::external_body]
pub struct ExBase(based::Base);

/// The digits of a numeral system, in order of value.
pub uninterp spec fn base_digits(b: based::Base) -> Seq<char>;

/// The numeral of `n` in the system with `digits`, most significant digit
/// first and without leading zeros; zero is written as one zero digit.
pub open spec fn numeral(digits: Seq<char>, n: nat) -> Seq<char>
    decreases n,
    via numeral_decreases
{
    if digits.len() < 2 {
        Seq::empty()
    } else if n < digits.len() {
        seq![digits[n as int]]
    } else {
        numeral(digits, n / digits.len()).push(digits[(n % digits.len()) as int])
    }
}

#[via_fn]
proof fn numeral_decreases(digits: Seq<char>, n: nat) {
    if digits.len() >= 2 && n >= digits.len() {
        let d = digits.len();
        assert(n / d < n) by (nonlinear_arith)
            requires
                d >= 2,
                n >= d,
        ;
    }
}

/// Every character of `s` is a digit of the system.
pub open spec fn all_digits(digits: Seq<char>, s: Seq<char>) -> bool {
    forall|i: int| 0 <= i < s.len() ==> digits.contains(#[trigger] s[i])
}

/// The number that `s` writes in the system with `digits`.
pub open spec fn value(digits: Seq<char>, s: Seq<char>) -> nat
    decreases s.len(),
{
    if s.len() == 0 {
        0
    } else {
        value(digits, s.drop_last()) * digits.len() + digits.index_of(s.last()) as nat
    }
}

/// Relies on `<based::Base as FromStr>::from_str`: a system is made exactly
/// when no character repeats, and each character's value is its position.
#[verifier::external_body]
fn new_base(digits: &str) -> (r: Option<based::Base>)
    ensures
        r is Some <==> digits@.no_duplicates(),
        r matches Some(b) ==> base_digits(b) == digits@,
{
    digits.parse::<based::Base>().ok()
}

/// Relies on `<based::Base as NumeralSystem<u16>>::encode`: it never fails and
/// pushes the least significant digit, then the others, then reverses.
#[verifier::external_body]
fn encode(base: &based::Base, n: u16) -> (r: String)
    requires
        base_digits(*base).len() >= 2,
    ensures
        r@ == numeral(base_digits(*base), n as nat),
{
    based::NumeralSystem::<u16>::encode(base, n).unwrap()
}

/// Relies on `<based::Base as NumeralSystem<u16>>::decode`: it fails on a
/// character outside the system or on a value beyond `u16`, and otherwise
/// accumulates `value * radix + digit` from the left.  The bounds keep that
/// accumulation inside `usize`.
#[verifier::external_body]
fn decode(base: &based::Base, s: &str) -> (r: Option<u16>)
    requires
        base_digits(*base).len() <= 26,
        base_digits(*base).no_duplicates(),
        s@.len() <= 3,
    ensures
        r is Some <==> (all_digits(base_digits(*base), s@) && value(base_digits(*base), s@) <= 0xffff),
        r matches Some(v) ==> v == value(base_digits(*base), s@),
{
    based::NumeralSystem::<u16>::decode(base, s).ok()
}

/// `len` consecutive characters from `first` on: the digits of a system
/// whose digit values follow the character codes.
pub open spec fn run(first: char, len: nat) -> Seq<char> {
    Seq::new(len, |i: int| ((first as int + i) as u8) as char)
}

/// `c` is one of the `len` characters from `first` on.
pub open spec fn in_run(c: char, first: char, len: nat) -> bool {
    first as int <= c as int && (c as int) < first as int + len
}

/// A system fit for `run`: at least two digits, all of them one byte.
pub open spec fn run_ok(first: char, len: nat) -> bool {
    2 <= len && first as int + len <= 128
}

/// The lowercase ASCII letters, `a` standing for zero.
pub open spec fn alphabet() -> Seq<char> {
    run('a', 26)
}

/// The decimal digits.
pub open spec fn decimal() -> Seq<char> {
    run('0', 10)
}

pub proof fn lemma_run_index(first: char, len: nat, c: char)
    requires
        run_ok(first, len),
        in_run(c, first, len),
    ensures
        run(first, len).contains(c),
        run(first, len).index_of(c) == c as int - first as int,
        run(first, len)[c as int - first as int] == c,
{
    let d = run(first, len);
    let k = c as int - first as int;
    assert(d[k] == c);
    let j = d.index_of(c);
    assert(d[j] == c);
}

proof fn lemma_run_distinct(first: char, len: nat)
    requires
        run_ok(first, len),
    ensures
        run(first, len).no_duplicates(),
        run(first, len).len() == len,
{
}

/// The lowercase base-26 system, `a` standing for zero.
fn base26() -> (r: Option<based::Base>)
    ensures
        r matches Some(b) && base_digits(b) == alphabet(),
{
    let r = new_base("abcdefghijklmnopqrstuvwxyz");
    proof {
        reveal_strlit("abcdefghijklmnopqrstuvwxyz");
        assert("abcdefghijklmnopqrstuvwxyz"@ =~= alphabet());
        lemma_run_distinct('a', 26);
    }
    r
}

/// The decimal system.
fn base10() -> (r: Option<based::Base>)
    ensures
        r matches Some(b) && base_digits(b) == decimal(),
{
    let r = new_base("0123456789");
    proof {
        reveal_strlit("0123456789");
        assert("0123456789"@ =~= decimal());
        lemma_run_distinct('0', 10);
    }
    r
}

/// What a word of one to three digits of a `run` system is worth.
pub proof fn lemma_value_of_word(first: char, len: nat, w: Seq<char>)
    requires
        run_ok(first, len),
        1 <= w.len() <= 3,
        forall|i: int| 0 <= i < w.len() ==> in_run(#[trigger] w[i], first, len),
    ensures
        all_digits(run(first, len), w),
        w.len() == 1 ==> value(run(first, len), w) == w[0] as int - first as int,
        w.len() == 2 ==> value(run(first, len), w) == (w[0] as int - first as int) * len + (
        w[1] as int - first as int),
        w.len() == 3 ==> value(run(first, len), w) == ((w[0] as int - first as int) * len + (
        w[1] as int - first as int)) * len + (w[2] as int - first as int),
        value(run(first, len), w) < len * len * len,
{
    let d = run(first, len);
    assert forall|i: int| 0 <= i < w.len() implies d.contains(#[trigger] w[i]) by {
        lemma_run_index(first, len, w[i]);
    }
    let x = w[0] as int - first as int;
    lemma_run_index(first, len, w[0]);
    let w0 = w.subrange(0, 1);
    assert(w0.drop_last() =~= Seq::<char>::empty());
    assert(w0.last() == w[0]);
    assert(value(d, w0.drop_last()) == 0);
    assert(value(d, w0) == x);
    assert(x * len * len + 0 < len * len * len) by (nonlinear_arith)
        requires
            0 <= x < len,
    ;
    if w.len() == 1 {
        assert(w0 =~= w);
        assert(x < len * len * len) by (nonlinear_arith)
            requires
                0 <= x < len,
                len >= 2,
        ;
    } else {
        let y = w[1] as int - first as int;
        lemma_run_index(first, len, w[1]);
        let w01 = w.subrange(0, 2);
        assert(w01.drop_last() =~= w0);
        assert(w01.last() == w[1]);
        assert(value(d, w01) == x * len + y);
        if w.len() == 2 {
            assert(w01 =~= w);
            assert(x * len + y < len * len * len) by (nonlinear_arith)
                requires
                    0 <= x < len,
                    0 <= y < len,
                    len >= 2,
            ;
        } else {
            let z = w[2] as int - first as int;
            lemma_run_index(first, len, w[2]);
            assert(w.drop_last() =~= w01);
            assert(value(d, w) == (x * len + y) * len + z);
            assert((x * len + y) * len + z < len * len * len) by (nonlinear_arith)
                requires
                    0 <= x < len,
                    0 <= y < len,
                    0 <= z < len,
            ;
        }
    }
}

/// Padding with `fill` on the left up to `width` characters.
pub open spec fn pad_left(s: Seq<char>, fill: char, width: nat) -> Seq<char> {
    if s.len() >= width {
        s
    } else {
        Seq::new((width - s.len()) as nat, |i: int| fill) + s
    }
}

proof fn lemma_numeral_step(first: char, len: nat, n: nat)
    requires
        run_ok(first, len),
        n >= len,
    ensures
        numeral(run(first, len), n) == numeral(run(first, len), n / len).push(
            run(first, len)[n as int % len as int],
        ),
{
}

proof fn lemma_numeral_small(first: char, len: nat, n: nat)
    requires
        run_ok(first, len),
        n < len,
    ensures
        numeral(run(first, len), n) == seq![run(first, len)[n as int]],
{
}

/// The numeral of a word's value, padded with the zero digit to the word's
/// length, gives the word back.
pub proof fn lemma_word_round_trip(first: char, len: nat, w: Seq<char>)
    requires
        run_ok(first, len),
        1 <= w.len() <= 3,
        forall|i: int| 0 <= i < w.len() ==> in_run(#[trigger] w[i], first, len),
    ensures
        pad_left(numeral(run(first, len), value(run(first, len), w)), first, w.len()) == w,
{
    let d = run(first, len);
    lemma_value_of_word(first, len, w);
    let v = value(d, w);
    lemma_run_index(first, len, w[0]);
    assert(d[0] == first);
    assert(in_run(w[0], first, len));
    let a = w[0] as int - first as int;
    if w.len() == 1 {
        lemma_numeral_small(first, len, v);
        assert(pad_left(numeral(d, v), first, 1) =~= w);
    } else if w.len() == 2 {
        lemma_run_index(first, len, w[1]);
        assert(in_run(w[1], first, len));
        let b = w[1] as int - first as int;
        if a == 0 {
            assert(v == b) by (nonlinear_arith)
                requires
                    v == a * len + b,
                    a == 0,
            ;
            lemma_numeral_small(first, len, v);
            assert(pad_left(numeral(d, v), first, 2) =~= w);
        } else {
            assert(v >= len) by (nonlinear_arith)
                requires
                    v == a * len + b,
                    a >= 1,
                    b >= 0,
            ;
            vstd::arithmetic::div_mod::lemma_fundamental_div_mod_converse(v as int, len as int, a, b);
            lemma_numeral_step(first, len, v);
            lemma_numeral_small(first, len, (v / len) as nat);
            assert(pad_left(numeral(d, v), first, 2) =~= w);
        }
    } else {
        lemma_run_index(first, len, w[1]);
        lemma_run_index(first, len, w[2]);
        assert(in_run(w[1], first, len));
        assert(in_run(w[2], first, len));
        let b = w[1] as int - first as int;
        let c = w[2] as int - first as int;
        let u = a * len + b;
        assert(u >= 0) by (nonlinear_arith)
            requires
                u == a * len + b,
                a >= 0,
                b >= 0,
                len >= 0,
        ;
        if v < len {
            assert(u == 0) by (nonlinear_arith)
                requires
                    v == u * len + c,
                    v < len,
                    u >= 0,
                    c >= 0,
            ;
            assert(a == 0) by (nonlinear_arith)
                requires
                    u == a * len + b,
                    u == 0,
                    a >= 0,
                    b >= 0,
                    len >= 2,
            ;
            lemma_numeral_small(first, len, v);
            assert(pad_left(numeral(d, v), first, 3) =~= w);
        } else {
            vstd::arithmetic::div_mod::lemma_fundamental_div_mod_converse(v as int, len as int, u, c);
            lemma_numeral_step(first, len, v);
            if u < len {
                assert(a == 0) by (nonlinear_arith)
                    requires
                        u == a * len + b,
                        u < len,
                        a >= 0,
                        b >= 0,
                ;
                assert(u == b) by (nonlinear_arith)
                    requires
                        u == a * len + b,
                        a == 0,
                ;
                lemma_numeral_small(first, len, u as nat);
                assert(pad_left(numeral(d, v), first, 3) =~= w);
            } else {
                assert(a < len) by (nonlinear_arith)
                    requires
                        u == a * len + b,
                        v == u * len + c,
                        v < len * len * len,
                        b >= 0,
                        c >= 0,
                        len >= 2,
                ;
                vstd::arithmetic::div_mod::lemma_fundamental_div_mod_converse(u, len as int, a, b);
                lemma_numeral_step(first, len, u as nat);
                lemma_numeral_small(first, len, a as nat);
                assert(pad_left(numeral(d, v), first, 3) =~= w);
            }
        }
    }
}

/// The base-26 value of a word of one to three lowercase letters.
pub fn letters_value(word: &str) -> (r: u16)
    requires
        1 <= word@.len() <= 3,
        forall|i: int| 0 <= i < word@.len() ==> in_run(#[trigger] word@[i], 'a', 26),
    ensures
        r == value(alphabet(), word@),
{
    proof {
        lemma_value_of_word('a', 26, word@);
        lemma_run_distinct('a', 26);
    }
    match base26() {
        Some(b) => match decode(&b, word) {
            Some(v) => v,
            None => 0,
        },
        None => 0,
    }
}

/// The decimal value of a word of one to three decimal digits.
pub fn digits_value(word: &str) -> (r: u16)
    requires
        1 <= word@.len() <= 3,
        forall|i: int| 0 <= i < word@.len() ==> in_run(#[trigger] word@[i], '0', 10),
    ensures
        r == value(decimal(), word@),
{
    proof {
        lemma_value_of_word('0', 10, word@);
        lemma_run_distinct('0', 10);
    }
    match base10() {
        Some(b) => match decode(&b, word) {
            Some(v) => v,
            None => 0,
        },
        None => 0,
    }
}

/// The base-26 numeral of `n`, `a` standing for zero.
pub fn letters_numeral(n: u16) -> (r: String)
    ensures
        r@ == numeral(alphabet(), n as nat),
{
    match base26() {
        Some(b) => encode(&b, n),
        None => String::new(),
    }
}

/// The decimal numeral of `n`.
pub fn decimal_numeral(n: u16) -> (r: String)
    ensures
        r@ == numeral(decimal(), n as nat),
{
    match base10() {
        Some(b) => encode(&b, n),
        None => String::new(),
    }
}

/// `s` padded on the left with `fill` up to `width` characters.
pub fn pad_left_chars(s: &Vec<char>, fill: char, width: usize) -> (r: Vec<char>)
    ensures
        r@ == pad_left(s@, fill, width as nat),
{
    let mut r: Vec<char> = Vec::new();
    let n = s.len();
    let k: usize = if n >= width { 0 } else { width - n };
    let mut i: usize = 0;
    while i < k
        invariant
            i <= k,
            r@ == Seq::new(i as nat, |j: int| fill),
        decreases k - i,
    {
        r.push(fill);
        i = i + 1;
        proof {
            assert(r@ =~= Seq::new(i as nat, |j: int| fill));
        }
    }
    let mut j: usize = 0;
    while j < n
        invariant
            n == s@.len(),
            j <= n,
            r@ == Seq::new(k as nat, |j: int| fill) + s@.subrange(0, j as int),
        decreases n - j,
    {
        r.push(s[j]);
        j = j + 1;
        proof {
            assert(r@ =~= Seq::new(k as nat, |j: int| fill) + s@.subrange(0, j as int));
        }
    }
    proof {
        assert(s@.subrange(0, n as int) =~= s@);
        if n >= width {
            assert(r@ =~= s@);
        }
    }
    r
}

} // verus!
