use vstd::prelude::*;
use rand::rngs::SmallRng;
use crate::code::valid_digits;
use crate::generator::{accept_new_suffix, is_code, suffixes_ok, texts, lemma_rendered_codes, lemma_full_list_covers_space};
use crate::random::rng_from_seed;
use crate::registry::DedupRegistry;
use crate::request::{CouponError, ValidatedRequest, validate, validation_outcome, space};
use crate::stream::{entropy_rng, render_all};
use crate::tickets::WorkTickets;

verus! {

/// What a buffered run promises: `count` distinct codes of `total` symbols,
/// each starting with `prefix`.
pub open spec fn is_code_set(codes: Seq<Seq<char>>, count: nat, total: nat, prefix: Seq<char>) -> bool {
    &&& codes.len() == count
    &&& codes.no_duplicates()
    &&& forall|i: int| 0 <= i < codes.len() ==> is_code(#[trigger] codes[i], total, prefix)
}

/// Asking for exactly as many codes as the space holds yields every code of
/// the requested shape.
pub proof fn lemma_full_request_covers_space(codes: Seq<Seq<char>>, total_length: u16, prefix: Seq<char>)
    requires
        prefix.len() <= total_length,
        is_code_set(codes, space((total_length - prefix.len()) as nat) as nat, total_length as nat, prefix),
    ensures
        forall|c: Seq<char>| is_code(c, total_length as nat, prefix) ==> codes.contains(c),
{
    vstd::arithmetic::power::lemma_pow_positive(36, (total_length - prefix.len()) as nat);
    lemma_full_list_covers_space(codes, total_length as nat, prefix);
}

/// One generator per worker (at least one), each seeded by the operating
/// system, or from `seed` plus the worker's number when a seed is given.
pub fn worker_rngs(workers: usize, seed: Option<u64>) -> (r: Vec<SmallRng>)
    ensures
        r@.len() == if workers == 0 { 1 } else { workers as int },
{
    let n: usize = if workers == 0 { 1 } else { workers };
    let mut r: Vec<SmallRng> = Vec::with_capacity(n);
    let mut w: usize = 0;
    while w < n
        invariant
            w <= n,
            r@.len() == w,
        decreases n - w,
    {
        let rng = match seed {
            Some(s) => rng_from_seed(s.wrapping_add(w as u64)),
            None => entropy_rng(),
        };
        r.push(rng);
        w = w + 1;
    }
    r
}

/// Produces all codes of a validated request. Ticket `t` is served by
/// worker `t % rngs.len()`, with that worker's own generator; every
/// acceptance goes through the one registry.
pub fn run_workers(req: &ValidatedRequest, rngs: &mut Vec<SmallRng>) -> (r: Vec<String>)
    requires
        req.wf(),
        old(rngs)@.len() >= 1,
    ensures
        final(rngs)@.len() == old(rngs)@.len(),
        is_code_set(texts(r@), req.required_count as nat, req.total_length as nat, req.prefix@),
{
    let workers = rngs.len();
    let mut registry = DedupRegistry::new();
    let mut tickets = WorkTickets::new(req.required_count);
    while !tickets.is_exhausted()
        invariant
            req.wf(),
            registry.wf(),
            tickets.wf(),
            tickets.total() == req.required_count,
            tickets.issued() == registry.entries().len(),
            suffixes_ok(registry.entries(), req.suffix_len as nat),
            rngs@.len() == workers,
            workers >= 1,
        decreases tickets.total() - tickets.issued(),
    {
        proof {
            tickets.lemma_issued_bound();
        }
        match tickets.claim_next_ticket() {
            Some(t) => {
                let w = t % workers;
                let mut rng = rngs.remove(w);
                accept_new_suffix(&mut registry, &mut rng, req.suffix_len, req.required_count);
                rngs.insert(w, rng);
            },
            None => {},
        }
    }
    proof {
        registry.lemma_unique();
        lemma_rendered_codes(req.prefix@, registry.entries(), req.suffix_len as nat);
    }
    let ghost ev = registry.entries();
    let entries = registry.into_entries();
    assert forall|i: int| 0 <= i < entries@.len() implies valid_digits(#[trigger] entries@[i]@) by {
        assert(entries@.map_values(|v: Vec<u8>| v@)[i] == ev[i]);
    }
    proof {
        assert(entries@.map_values(|v: Vec<u8>| v@) == ev);
    }
    render_all(req.prefix.as_str(), &entries)
}

/// Validates a request and produces all of its codes at once with `workers`
/// generators (one when `workers` is 0). The order of the codes carries no
/// meaning.
pub fn generate_coupons(len: u16, number_coupons: usize, initials: &str, workers: usize) -> (r: Result<Vec<String>, CouponError>)
    ensures
        match r {
            Ok(v) => {
                &&& validation_outcome(len, number_coupons, initials@.len()) is Ok
                &&& is_code_set(texts(v@), number_coupons as nat, len as nat, initials@)
            },
            Err(e) => validation_outcome(len, number_coupons, initials@.len()) == Err::<u128, CouponError>(e),
        },
{
    let req = validate(len, number_coupons, initials)?;
    let mut rngs = worker_rngs(workers, None);
    Ok(run_workers(&req, &mut rngs))
}

/// As `generate_coupons`, with the workers' generators fixed by `seed`.
pub fn generate_coupons_seeded(len: u16, number_coupons: usize, initials: &str, workers: usize, seed: u64) -> (r: Result<Vec<String>, CouponError>)
    ensures
        match r {
            Ok(v) => {
                &&& validation_outcome(len, number_coupons, initials@.len()) is Ok
                &&& is_code_set(texts(v@), number_coupons as nat, len as nat, initials@)
            },
            Err(e) => validation_outcome(len, number_coupons, initials@.len()) == Err::<u128, CouponError>(e),
        },
{
    let req = validate(len, number_coupons, initials)?;
    let mut rngs = worker_rngs(workers, Some(seed));
    Ok(run_workers(&req, &mut rngs))
}

} // verus!
