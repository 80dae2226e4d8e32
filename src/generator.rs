use vstd::prelude::*;
use vstd::relations::injective_on;
use vstd::set_lib::{set_int_range, lemma_int_range, lemma_map_size, lemma_len_subset, lemma_subset_equality};
use rand::rngs::SmallRng;
use crate::charset::{is_symbol, digit_of, lemma_symbol_in_alphabet, lemma_digit_of_symbol};
use crate::code::{valid_digits, render, encode, suffix_text, render_code, digits_from_bytes,
    encode_index, lemma_encode_valid, lemma_encode_injective, lemma_render_injective, decode,
    lemma_decode_encode};
use crate::random::fill_random;
use crate::registry::DedupRegistry;
use crate::request::{space, validation_outcome, CouponError};

verus! {

/// Random attempts per ticket before the generator walks the space in order.
pub const RETRY_BUDGET: usize = 64;

/// `c` is a code of `total` symbols that starts with `prefix` and continues
/// with symbols of the alphabet.
pub open spec fn is_code(c: Seq<char>, total: nat, prefix: Seq<char>) -> bool {
    &&& c.len() == total
    &&& prefix.len() <= total
    &&& c.subrange(0, prefix.len() as int) == prefix
    &&& forall|i: int| prefix.len() <= i < total ==> is_symbol(#[trigger] c[i])
}

/// Every suffix in `entries` has `k` valid digits.
pub open spec fn suffixes_ok(entries: Seq<Seq<u8>>, k: nat) -> bool {
    forall|i: int| 0 <= i < entries.len() ==> {
        &&& (#[trigger] entries[i]).len() == k
        &&& valid_digits(entries[i])
    }
}

/// The texts of a list of strings.
pub open spec fn texts(v: Seq<String>) -> Seq<Seq<char>> {
    v.map_values(|s: String| s@)
}

/// The codes that a list of suffixes stands for.
pub open spec fn rendered(prefix: Seq<char>, entries: Seq<Seq<u8>>) -> Seq<Seq<char>> {
    entries.map_values(|d: Seq<u8>| render(prefix, d))
}

pub proof fn lemma_render_is_code(prefix: Seq<char>, d: Seq<u8>)
    requires
        valid_digits(d),
    ensures
        is_code(render(prefix, d), prefix.len() + d.len(), prefix),
{
    let c = render(prefix, d);
    assert(c.subrange(0, prefix.len() as int) =~= prefix);
    assert forall|i: int| prefix.len() <= i < prefix.len() + d.len() implies is_symbol(#[trigger] c[i]) by {
        assert(c[i] == suffix_text(d)[i - prefix.len()]);
        lemma_symbol_in_alphabet(d[i - prefix.len()] as int);
    }
}

pub proof fn lemma_rendered_codes(prefix: Seq<char>, entries: Seq<Seq<u8>>, k: nat)
    requires
        suffixes_ok(entries, k),
        entries.no_duplicates(),
    ensures
        rendered(prefix, entries).len() == entries.len(),
        rendered(prefix, entries).no_duplicates(),
        forall|i: int| 0 <= i < entries.len() ==> is_code(#[trigger] rendered(prefix, entries)[i], prefix.len() + k, prefix),
{
    let r = rendered(prefix, entries);
    assert forall|i: int, j: int| 0 <= i < j < r.len() implies r[i] != r[j] by {
        if r[i] == r[j] {
            lemma_render_injective(prefix, entries[i], entries[j]);
        }
    }
    assert forall|i: int| 0 <= i < entries.len() implies is_code(#[trigger] r[i], prefix.len() + k, prefix) by {
        lemma_render_is_code(prefix, entries[i]);
    }
}

/// Among the first `n` indices of a space of at least `n` suffixes, one is
/// missing from any list of fewer than `n` distinct suffixes.
proof fn lemma_free_index_exists(entries: Seq<Seq<u8>>, k: nat, n: nat)
    requires
        entries.no_duplicates(),
        entries.len() < n,
        n <= space(k),
    ensures
        exists|t: nat| t < n && !entries.contains(#[trigger] encode(t, k)),
{
    if forall|t: nat| t < n ==> entries.contains(#[trigger] encode(t, k)) {
    let f = |t: int| encode(t as nat, k);
    let x = set_int_range(0, n as int);
    lemma_int_range(0, n as int);
    let y = x.map(f);
    assert forall|a: int, b: int| x.contains(a) && x.contains(b) && #[trigger] f(a) == #[trigger] f(b) implies a == b by {
        lemma_encode_injective(a as nat, b as nat, k);
    }
    assert(injective_on(f, x));
    lemma_map_size(x, y, f);
    let es = entries.to_set();
    assert forall|c: Seq<u8>| y.contains(c) implies es.contains(c) by {
        let t = choose|t: int| x.contains(t) && f(t) == c;
        assert(entries.contains(encode(t as nat, k)));
    }
    entries.unique_seq_to_set();
    lemma_len_subset(y, es);
    }
}

/// Draws `k` random symbol indices.
pub fn generate_digits(rng: &mut SmallRng, k: usize) -> (r: Vec<u8>)
    ensures
        r@.len() == k,
        valid_digits(r@),
{
    let mut buf: Vec<u8> = Vec::with_capacity(k);
    let mut i: usize = 0;
    while i < k
        invariant
            i <= k,
            buf@.len() == i,
        decreases k - i,
    {
        buf.push(0u8);
        i = i + 1;
    }
    fill_random(rng, &mut buf);
    digits_from_bytes(&buf)
}

/// One candidate code: `initials` followed by `code_len` random symbols.
pub fn generate_coupon(rng: &mut SmallRng, code_len: usize, initials: &str) -> (r: String)
    ensures
        is_code(r@, initials@.len() + code_len as nat, initials@),
{
    let d = generate_digits(rng, code_len);
    proof {
        lemma_render_is_code(initials@, d@);
    }
    render_code(initials, &d)
}

/// Adds one suffix of `k` symbols that the registry does not hold yet.
/// Random candidates are tried first; should all of them collide, the
/// suffixes with indices `0..required` are tried in order, and one of them
/// is free since fewer than `required` suffixes are held.
pub fn accept_new_suffix(registry: &mut DedupRegistry, rng: &mut SmallRng, k: usize, required: usize)
    requires
        old(registry).wf(),
        suffixes_ok(old(registry).entries(), k as nat),
        old(registry).entries().len() < required,
        required <= space(k as nat),
    ensures
        final(registry).wf(),
        suffixes_ok(final(registry).entries(), k as nat),
        final(registry).entries().len() == old(registry).entries().len() + 1,
        final(registry).entries().drop_last() == old(registry).entries(),
{
    let ghost start = registry.entries();
    let mut attempt: usize = 0;
    while attempt < RETRY_BUDGET
        invariant
            registry.wf(),
            registry.entries() == start,
            start == old(registry).entries(),
            suffixes_ok(start, k as nat),
        decreases RETRY_BUDGET - attempt,
    {
        let d = generate_digits(rng, k);
        let ghost dv = d@;
        if registry.try_accept(d) {
            assert(registry.entries().drop_last() =~= start);
            assert(registry.entries()[start.len() as int] == dv);
            return;
        }
        attempt = attempt + 1;
    }
    let mut j: usize = 0;
    while j < required
        invariant
            registry.wf(),
            registry.entries() == start,
            start == old(registry).entries(),
            suffixes_ok(start, k as nat),
            start.len() < required,
            j <= required,
            forall|t: nat| t < j ==> start.contains(#[trigger] encode(t, k as nat)),
        decreases required - j,
    {
        let d = encode_index(j, k);
        let ghost dv = d@;
        proof {
            lemma_encode_valid(j as nat, k as nat);
        }
        if registry.try_accept(d) {
            assert(registry.entries().drop_last() =~= start);
            assert(registry.entries()[start.len() as int] == dv);
            return;
        }
        j = j + 1;
    }
    proof {
        registry.lemma_unique();
        lemma_free_index_exists(start, k as nat, required as nat);
        let t = choose|t: nat| t < required && !start.contains(#[trigger] encode(t, k as nat));
        assert(start.contains(encode(t, k as nat)));
    }
}

/// When the prefix takes the whole length, one code can be requested but
/// not two, and the only code is the prefix itself.
pub proof fn lemma_full_prefix(total_length: u16, prefix: Seq<char>, c: Seq<char>)
    requires
        prefix.len() == total_length,
    ensures
        validation_outcome(total_length, 1, prefix.len()) is Ok,
        validation_outcome(total_length, 2, prefix.len()) == Err::<u128, CouponError>(CouponError::TooManyCoupons(2, 1)),
        is_code(c, total_length as nat, prefix) ==> c == prefix,
{
    reveal(vstd::arithmetic::power::pow);
    assert(space(0) == 1);
    if is_code(c, total_length as nat, prefix) {
        assert(c =~= c.subrange(0, prefix.len() as int));
    }
}

/// The suffix indices that a code's symbols stand for.
pub open spec fn digits_of_code(c: Seq<char>, prefix_len: nat) -> Seq<u8> {
    c.subrange(prefix_len as int, c.len() as int).map_values(|ch: char| digit_of(ch) as u8)
}

/// Every code is the rendering of the index of its suffix.
pub proof fn lemma_code_is_rendered(c: Seq<char>, total: nat, prefix: Seq<char>)
    requires
        is_code(c, total, prefix),
    ensures
        valid_digits(digits_of_code(c, prefix.len())),
        digits_of_code(c, prefix.len()).len() == total - prefix.len(),
        decode(digits_of_code(c, prefix.len())) < space((total - prefix.len()) as nat),
        render(prefix, encode(decode(digits_of_code(c, prefix.len())), (total - prefix.len()) as nat)) == c,
{
    let d = digits_of_code(c, prefix.len());
    assert forall|i: int| 0 <= i < d.len() implies #[trigger] d[i] < 36 by {
        lemma_digit_of_symbol(c[prefix.len() + i]);
    }
    lemma_decode_encode(d);
    let r = render(prefix, d);
    assert forall|i: int| 0 <= i < c.len() implies r[i] == c[i] by {
        if i < prefix.len() {
            assert(c.subrange(0, prefix.len() as int)[i] == c[i]);
        } else {
            lemma_digit_of_symbol(c[i]);
            assert(d[i - prefix.len()] == digit_of(c[i]) as u8);
        }
    }
    assert(r =~= c);
}

/// A list of `36^k` distinct codes of `prefix.len() + k` symbols that start
/// with `prefix` holds every such code.
pub proof fn lemma_full_list_covers_space(codes: Seq<Seq<char>>, total: nat, prefix: Seq<char>)
    requires
        prefix.len() <= total,
        codes.len() == space((total - prefix.len()) as nat),
        codes.no_duplicates(),
        forall|i: int| 0 <= i < codes.len() ==> is_code(#[trigger] codes[i], total, prefix),
    ensures
        forall|c: Seq<char>| is_code(c, total, prefix) ==> codes.contains(c),
{
    let k = (total - prefix.len()) as nat;
    vstd::arithmetic::power::lemma_pow_positive(36, k);
    let f = |j: int| render(prefix, encode(j as nat, k));
    let x = set_int_range(0, space(k));
    lemma_int_range(0, space(k));
    let y = x.map(f);
    assert forall|a: int, b: int| x.contains(a) && x.contains(b) && #[trigger] f(a) == #[trigger] f(b) implies a == b by {
        lemma_encode_valid(a as nat, k);
        lemma_encode_valid(b as nat, k);
        lemma_render_injective(prefix, encode(a as nat, k), encode(b as nat, k));
        lemma_encode_injective(a as nat, b as nat, k);
    }
    assert(injective_on(f, x));
    lemma_map_size(x, y, f);
    let cs = codes.to_set();
    codes.unique_seq_to_set();
    assert forall|c: Seq<char>| is_code(c, total, prefix) implies #[trigger] y.contains(c) by {
        lemma_code_is_rendered(c, total, prefix);
        let j = decode(digits_of_code(c, prefix.len())) as int;
        assert(x.contains(j));
        assert(f(j) == c);
    }
    assert forall|c: Seq<char>| cs.contains(c) implies y.contains(c) by {
        let i = choose|i: int| 0 <= i < codes.len() && codes[i] == c;
        assert(is_code(codes[i], total, prefix));
    }
    assert(cs.subset_of(y));
    lemma_subset_equality(cs, y);
    assert forall|c: Seq<char>| is_code(c, total, prefix) implies codes.contains(c) by {
        assert(y.contains(c));
        assert(cs.contains(c));
    }
}

} // verus!
