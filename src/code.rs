use vstd::prelude::*;
use vstd::arithmetic::power::pow;
use crate::charset::{symbol, symbol_for_byte, lemma_symbol_injective};

verus! {

/// A suffix is a sequence of symbol indices, each below 36.
pub open spec fn valid_digits(d: Seq<u8>) -> bool {
    forall|i: int| 0 <= i < d.len() ==> #[trigger] d[i] < 36
}

/// The symbols that a suffix stands for.
pub open spec fn suffix_text(d: Seq<u8>) -> Seq<char> {
    d.map_values(|x: u8| symbol(x as int))
}

/// The code made of `prefix` followed by the symbols of `d`.
pub open spec fn render(prefix: Seq<char>, d: Seq<u8>) -> Seq<char> {
    prefix + suffix_text(d)
}

/// The `k` base-36 digits of `j`, least significant first.
pub open spec fn encode(j: nat, k: nat) -> Seq<u8>
    decreases k,
{
    if k == 0 {
        Seq::empty()
    } else {
        seq![(j % 36) as u8] + encode(j / 36, (k - 1) as nat)
    }
}

/// The index whose `k` base-36 digits, least significant first, are `d`.
pub open spec fn decode(d: Seq<u8>) -> nat
    decreases d.len(),
{
    if d.len() == 0 {
        0
    } else {
        d[0] as nat + 36 * decode(d.drop_first())
    }
}

pub proof fn lemma_decode_encode(d: Seq<u8>)
    requires
        valid_digits(d),
    ensures
        decode(d) < pow(36, d.len()),
        encode(decode(d), d.len()) == d,
    decreases d.len(),
{
    reveal(pow);
    if d.len() > 0 {
        let t = d.drop_first();
        assert(valid_digits(t)) by {
            assert forall|i: int| 0 <= i < t.len() implies #[trigger] t[i] < 36 by {
                assert(t[i] == d[i + 1]);
            }
        }
        lemma_decode_encode(t);
        let j = decode(d);
        let r = decode(t);
        let p = pow(36, t.len());
        assert(d[0] < 36);
        assert(j == d[0] as nat + 36 * r);
        assert(j % 36 == d[0] as nat && j / 36 == r) by (nonlinear_arith)
            requires j == d[0] as nat + 36 * r, d[0] < 36;
        assert(j < 36 * p) by (nonlinear_arith)
            requires j == d[0] as nat + 36 * r, d[0] < 36, r < p;
        assert(pow(36, d.len()) == 36 * p);
        assert(encode(j, d.len()) =~= d);
    }
}

pub proof fn lemma_render_injective(prefix: Seq<char>, a: Seq<u8>, b: Seq<u8>)
    requires
        valid_digits(a),
        valid_digits(b),
        render(prefix, a) == render(prefix, b),
    ensures
        a == b,
{
    let ra = render(prefix, a);
    let rb = render(prefix, b);
    assert(ra.len() == rb.len());
    assert(a.len() == b.len());
    assert forall|i: int| 0 <= i < a.len() implies a[i] == b[i] by {
        assert(ra[prefix.len() + i] == symbol(a[i] as int));
        assert(rb[prefix.len() + i] == symbol(b[i] as int));
        lemma_symbol_injective(a[i] as int, b[i] as int);
    }
    assert(a =~= b);
}

pub proof fn lemma_encode_valid(j: nat, k: nat)
    ensures
        encode(j, k).len() == k,
        valid_digits(encode(j, k)),
    decreases k,
{
    if k > 0 {
        lemma_encode_valid(j / 36, (k - 1) as nat);
        let e = encode(j, k);
        let t = encode(j / 36, (k - 1) as nat);
        assert forall|i: int| 0 <= i < e.len() implies #[trigger] e[i] < 36 by {
            if i > 0 {
                assert(e[i] == t[i - 1]);
            }
        }
    }
}

pub proof fn lemma_encode_injective(a: nat, b: nat, k: nat)
    requires
        a < pow(36, k),
        b < pow(36, k),
        encode(a, k) == encode(b, k),
    ensures
        a == b,
    decreases k,
{
    reveal(pow);
    if k > 0 {
        let p = pow(36, (k - 1) as nat);
        let ea = encode(a, k);
        let eb = encode(b, k);
        assert(ea[0] == eb[0]);
        assert(a % 36 == b % 36);
        assert(encode(a / 36, (k - 1) as nat) =~= ea.subrange(1, ea.len() as int));
        assert(encode(b / 36, (k - 1) as nat) =~= eb.subrange(1, eb.len() as int));
        assert(a / 36 < p) by (nonlinear_arith)
            requires a < 36 * p;
        assert(b / 36 < p) by (nonlinear_arith)
            requires b < 36 * p;
        lemma_encode_injective(a / 36, b / 36, (k - 1) as nat);
        assert(a == 36 * (a / 36) + a % 36);
        assert(b == 36 * (b / 36) + b % 36);
    }
}

/// Relies on String::push: appends one character.
#[verifier::external_body]
pub(crate) fn push_char(s: &mut String, c: char)
    ensures
        final(s)@ == old(s)@.push(c),
{
    s.push(c);
}

/// Builds the code text for `prefix` and the suffix `digits`.
pub fn render_code(prefix: &str, digits: &Vec<u8>) -> (r: String)
    requires
        valid_digits(digits@),
    ensures
        r@ == render(prefix@, digits@),
{
    let mut s = String::from_str(prefix);
    let mut i: usize = 0;
    while i < digits.len()
        invariant
            i <= digits.len(),
            valid_digits(digits@),
            s@ == prefix@ + suffix_text(digits@.subrange(0, i as int)),
        decreases digits.len() - i,
    {
        let c = symbol_for_byte(digits[i]);
        push_char(&mut s, c);
        assert(suffix_text(digits@.subrange(0, i + 1)) =~= suffix_text(digits@.subrange(0, i as int)).push(c));
        i = i + 1;
    }
    assert(digits@.subrange(0, digits.len() as int) =~= digits@);
    s
}

/// Maps each random byte to a symbol index by `byte % 36`.
pub fn digits_from_bytes(bytes: &Vec<u8>) -> (r: Vec<u8>)
    ensures
        r@.len() == bytes@.len(),
        forall|i: int| 0 <= i < r@.len() ==> #[trigger] r@[i] == bytes@[i] % 36,
        valid_digits(r@),
{
    let mut r: Vec<u8> = Vec::with_capacity(bytes.len());
    let mut i: usize = 0;
    while i < bytes.len()
        invariant
            i <= bytes.len(),
            r@.len() == i,
            forall|t: int| 0 <= t < i ==> #[trigger] r@[t] == bytes@[t] % 36,
        decreases bytes.len() - i,
    {
        r.push(bytes[i] % 36);
        i = i + 1;
    }
    r
}

/// The `k` base-36 digits of `j`, least significant first.
pub fn encode_index(j: usize, k: usize) -> (r: Vec<u8>)
    ensures
        r@ == encode(j as nat, k as nat),
{
    let mut r: Vec<u8> = Vec::new();
    let mut cur: usize = j;
    let mut i: usize = 0;
    while i < k
        invariant
            i <= k,
            r@ + encode(cur as nat, (k - i) as nat) == encode(j as nat, k as nat),
        decreases k - i,
    {
        let ghost before = r@;
        let ghost rest = encode((cur / 36) as nat, (k - i - 1) as nat);
        r.push((cur % 36) as u8);
        assert(encode(cur as nat, (k - i) as nat) == seq![(cur % 36) as u8] + rest);
        assert(r@ + rest =~= before + (seq![(cur % 36) as u8] + rest));
        cur = cur / 36;
        i = i + 1;
    }
    assert(encode(cur as nat, 0) =~= Seq::<u8>::empty());
    assert(r@ + Seq::<u8>::empty() =~= r@);
    r
}

} // verus!
