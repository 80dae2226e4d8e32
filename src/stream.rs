use vstd::prelude::*;
use rand::rngs::SmallRng;
use crate::code::{valid_digits, render_code};
use crate::generator::{accept_new_suffix, is_code, suffixes_ok, rendered, texts, lemma_rendered_codes, lemma_full_list_covers_space};
use crate::random::{rng_from_os, rng_from_seed};
use crate::registry::DedupRegistry;
use crate::request::{CouponError, ValidatedRequest, validate, validation_outcome, space};
use crate::tickets::WorkTickets;

verus! {

/// A fresh generator: seeded by the operating system, or by a fixed seed
/// where that source fails (codes stay unique; only their unpredictability
/// is lost).
pub fn entropy_rng() -> (r: SmallRng) {
    match rng_from_os() {
        Some(rng) => rng,
        None => rng_from_seed(0),
    }
}

/// Renders every suffix of `entries` behind `prefix`.
pub fn render_all(prefix: &str, entries: &Vec<Vec<u8>>) -> (r: Vec<String>)
    requires
        forall|i: int| 0 <= i < entries@.len() ==> valid_digits(#[trigger] entries@[i]@),
    ensures
        texts(r@) == rendered(prefix@, entries@.map_values(|v: Vec<u8>| v@)),
{
    let ghost ev = entries@.map_values(|v: Vec<u8>| v@);
    let mut r: Vec<String> = Vec::with_capacity(entries.len());
    let mut i: usize = 0;
    while i < entries.len()
        invariant
            i <= entries.len(),
            ev == entries@.map_values(|v: Vec<u8>| v@),
            forall|t: int| 0 <= t < entries@.len() ==> valid_digits(#[trigger] entries@[t]@),
            texts(r@) == rendered(prefix@, ev.subrange(0, i as int)),
            r@.len() == i,
        decreases entries.len() - i,
    {
        let s = render_code(prefix, &entries[i]);
        let ghost sv = s@;
        let ghost before = r@;
        r.push(s);
        assert(r@ == before.push(s));
        assert(ev[i as int] == entries@[i as int]@);
        assert(texts(r@)[i as int] == sv);
        assert forall|t: int| 0 <= t < i implies texts(r@)[t] == rendered(prefix@, ev.subrange(0, i + 1))[t] by {
            assert(texts(r@)[t] == texts(before)[t]);
            assert(texts(before)[t] == rendered(prefix@, ev.subrange(0, i as int))[t]);
        }
        assert(texts(r@) =~= rendered(prefix@, ev.subrange(0, i + 1)));
        i = i + 1;
    }
    assert(ev.subrange(0, entries.len() as int) =~= ev);
    r
}

/// Where a stream stands: nothing pulled yet, handing out codes, or done.
#[derive(Debug, Clone, Copy, PartialEq, Eq, Structural)]
pub enum StreamState {
    Pending,
    Emitting,
    Exhausted,
}

/// The state of a stream that has handed out `emitted` of `required` codes.
pub open spec fn state_of(emitted: nat, required: nat) -> StreamState {
    if emitted >= required {
        StreamState::Exhausted
    } else if emitted == 0 {
        StreamState::Pending
    } else {
        StreamState::Emitting
    }
}

/// A lazy, finite sequence of unique codes: each pull produces one new code
/// until `required` codes have come out, then nothing more.
pub struct CouponStream {
    prefix: String,
    total_length: u16,
    suffix_len: usize,
    registry: DedupRegistry,
    tickets: WorkTickets,
    rng: SmallRng,
}

impl CouponStream {
    /// The codes handed out so far, in order.
    pub closed spec fn emitted(&self) -> Seq<Seq<char>> {
        rendered(self.prefix@, self.registry.entries())
    }

    pub closed spec fn prefix_text(&self) -> Seq<char> {
        self.prefix@
    }

    pub closed spec fn total_length(&self) -> nat {
        self.total_length as nat
    }

    /// How many codes the stream hands out in all.
    pub closed spec fn required(&self) -> nat {
        self.tickets.total()
    }

    pub closed spec fn wf(&self) -> bool {
        &&& self.registry.wf()
        &&& self.tickets.wf()
        &&& self.tickets.issued() == self.registry.entries().len()
        &&& suffixes_ok(self.registry.entries(), self.suffix_len as nat)
        &&& self.prefix@.len() + self.suffix_len == self.total_length
        &&& self.tickets.total() <= space(self.suffix_len as nat)
    }

    /// What a well-formed stream has handed out: distinct codes of the
    /// requested shape, no more than were asked for.
    pub proof fn lemma_emitted_codes(&self)
        requires
            self.wf(),
        ensures
            self.emitted().no_duplicates(),
            self.emitted().len() <= self.required(),
            forall|i: int| 0 <= i < self.emitted().len() ==>
                is_code(#[trigger] self.emitted()[i], self.total_length(), self.prefix_text()),
    {
        self.registry.lemma_unique();
        self.tickets.lemma_issued_bound();
        lemma_rendered_codes(self.prefix@, self.registry.entries(), self.suffix_len as nat);
    }

    /// A drained stream that was asked for the whole space has handed out
    /// every code of the requested shape.
    pub proof fn lemma_full_stream_covers_space(&self)
        requires
            self.wf(),
            self.emitted().len() == self.required(),
            self.required() == space((self.total_length() - self.prefix_text().len()) as nat),
        ensures
            forall|c: Seq<char>| is_code(c, self.total_length(), self.prefix_text()) ==> self.emitted().contains(c),
    {
        self.lemma_emitted_codes();
        lemma_full_list_covers_space(self.emitted(), self.total_length(), self.prefix_text());
    }

    fn start(req: ValidatedRequest, rng: SmallRng) -> (r: CouponStream)
        requires
            req.wf(),
        ensures
            r.wf(),
            r.emitted() == Seq::<Seq<char>>::empty(),
            r.prefix_text() == req.prefix@,
            r.total_length() == req.total_length,
            r.required() == req.required_count,
    {
        let r = CouponStream {
            prefix: req.prefix,
            total_length: req.total_length,
            suffix_len: req.suffix_len,
            registry: DedupRegistry::new(),
            tickets: WorkTickets::new(req.required_count),
            rng,
        };
        assert(r.emitted() =~= Seq::<Seq<char>>::empty());
        r
    }

    /// Pulls the next code: a code not handed out before, or `None` once the
    /// required number has come out.
    pub fn next(&mut self) -> (r: Option<String>)
        requires
            old(self).wf(),
        ensures
            final(self).wf(),
            final(self).prefix_text() == old(self).prefix_text(),
            final(self).total_length() == old(self).total_length(),
            final(self).required() == old(self).required(),
            old(self).emitted().len() < old(self).required() ==> {
                &&& r.is_some()
                &&& final(self).emitted() == old(self).emitted().push(r->0@)
                &&& !old(self).emitted().contains(r->0@)
                &&& is_code(r->0@, old(self).total_length(), old(self).prefix_text())
            },
            old(self).emitted().len() >= old(self).required() ==> {
                &&& r.is_none()
                &&& final(self).emitted() == old(self).emitted()
            },
    {
        match self.tickets.claim_next_ticket() {
            None => None,
            Some(_) => {
                let ghost before = self.registry.entries();
                accept_new_suffix(&mut self.registry, &mut self.rng, self.suffix_len, self.tickets.total_count());
                let n = self.registry.len();
                let code = render_code(self.prefix.as_str(), self.registry.entry(n - 1));
                proof {
                    let after = self.registry.entries();
                    assert(after =~= before.push(after[n - 1]));
                    assert(self.emitted() =~= rendered(self.prefix@, before).push(code@));
                    self.lemma_emitted_codes();
                    let old_emitted = rendered(self.prefix@, before);
                    if old_emitted.contains(code@) {
                        let i = choose|i: int| 0 <= i < old_emitted.len() && old_emitted[i] == code@;
                        assert(self.emitted()[i] == self.emitted()[n - 1]);
                    }
                    assert(self.emitted()[n - 1] == code@);
                }
                Some(code)
            },
        }
    }

    pub fn state(&self) -> (r: StreamState)
        requires
            self.wf(),
        ensures
            r == state_of(self.emitted().len(), self.required()),
    {
        proof {
            self.lemma_emitted_codes();
        }
        if self.tickets.is_exhausted() {
            StreamState::Exhausted
        } else if self.registry.len() == 0 {
            StreamState::Pending
        } else {
            StreamState::Emitting
        }
    }

    /// Whether every required code has been handed out.
    pub fn is_exhausted(&self) -> (r: bool)
        requires
            self.wf(),
        ensures
            r == (self.emitted().len() == self.required()),
    {
        self.tickets.is_exhausted()
    }
}

/// Validates a request and returns a lazy stream of `number_coupons` unique
/// codes of `len` symbols that start with `initials`.
pub fn coupon_generator(len: u16, number_coupons: usize, initials: &str) -> (r: Result<CouponStream, CouponError>)
    ensures
        match r {
            Ok(s) => {
                &&& validation_outcome(len, number_coupons, initials@.len()) is Ok
                &&& s.wf()
                &&& s.emitted() == Seq::<Seq<char>>::empty()
                &&& s.prefix_text() == initials@
                &&& s.total_length() == len
                &&& s.required() == number_coupons
            },
            Err(e) => validation_outcome(len, number_coupons, initials@.len()) == Err::<u128, CouponError>(e),
        },
{
    let req = validate(len, number_coupons, initials)?;
    Ok(CouponStream::start(req, entropy_rng()))
}

/// As `coupon_generator`, with a generator fixed by `seed`.
pub fn coupon_generator_seeded(len: u16, number_coupons: usize, initials: &str, seed: u64) -> (r: Result<CouponStream, CouponError>)
    ensures
        match r {
            Ok(s) => {
                &&& validation_outcome(len, number_coupons, initials@.len()) is Ok
                &&& s.wf()
                &&& s.emitted() == Seq::<Seq<char>>::empty()
                &&& s.prefix_text() == initials@
                &&& s.total_length() == len
                &&& s.required() == number_coupons
            },
            Err(e) => validation_outcome(len, number_coupons, initials@.len()) == Err::<u128, CouponError>(e),
        },
{
    let req = validate(len, number_coupons, initials)?;
    Ok(CouponStream::start(req, rng_from_seed(seed)))
}

} // verus!
