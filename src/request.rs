use vstd::prelude::*;
use vstd::arithmetic::power::pow;

verus! {

/// Why a request was refused or an export failed.
#[derive(Debug, PartialEq, Eq, Structural)]
pub enum CouponError {
    /// The prefix (its length in characters) is longer than the requested
    /// total length (the second field).
    InitialsTooLong(usize, u16),
    /// More codes were requested (first field) than the space holds (second).
    TooManyCoupons(usize, u128),
    /// The tabular encoder refused a record.
    CsvWriteError,
    /// The sink refused the bytes.
    IoError,
}

/// Largest value the space is reported with; larger spaces are capped here.
pub const SPACE_CAP: u128 = 0xffff_ffff_ffff_ffff_ffff_ffff_ffff_ffff;

/// Number of distinct suffixes of `k` symbols.
pub open spec fn space(k: nat) -> int {
    pow(36, k)
}

/// The space, capped to what a `u128` holds.
pub open spec fn capped(x: int) -> int {
    if x > SPACE_CAP as int { SPACE_CAP as int } else { x }
}

/// A request that passed validation.
pub struct ValidatedRequest {
    pub total_length: u16,
    pub prefix: String,
    pub required_count: usize,
    /// Number of random symbols after the prefix.
    pub suffix_len: usize,
    /// The combinatorial space, capped to `u128`.
    pub space: u128,
}

impl ValidatedRequest {
    pub open spec fn wf(&self) -> bool {
        &&& self.prefix@.len() + self.suffix_len == self.total_length
        &&& self.required_count <= space(self.suffix_len as nat)
        &&& self.space == capped(space(self.suffix_len as nat))
    }
}

/// What validation decides, over plain values.
pub open spec fn validation_outcome(total_length: u16, required_count: usize, prefix_len: nat) -> Result<u128, CouponError> {
    if prefix_len > total_length {
        Err(CouponError::InitialsTooLong(prefix_len as usize, total_length))
    } else if required_count > space((total_length - prefix_len) as nat) {
        Err(CouponError::TooManyCoupons(required_count, space((total_length - prefix_len) as nat) as u128))
    } else {
        Ok(capped(space((total_length - prefix_len) as nat)) as u128)
    }
}

/// The decision and space that a validation result carries.
pub open spec fn outcome(r: Result<ValidatedRequest, CouponError>) -> Result<u128, CouponError> {
    match r {
        Ok(v) => Ok(v.space),
        Err(e) => Err(e),
    }
}

/// Asking for exactly as many codes as the space holds passes validation;
/// asking for one more is refused as too many.
pub proof fn lemma_capacity_boundary(total_length: u16, prefix_len: nat)
    requires
        prefix_len <= total_length,
        space((total_length - prefix_len) as nat) < usize::MAX,
    ensures
        validation_outcome(total_length, space((total_length - prefix_len) as nat) as usize, prefix_len) is Ok,
        validation_outcome(total_length, (space((total_length - prefix_len) as nat) + 1) as usize, prefix_len)
            == Err::<u128, CouponError>(CouponError::TooManyCoupons(
                (space((total_length - prefix_len) as nat) + 1) as usize,
                space((total_length - prefix_len) as nat) as u128,
            )),
{
    vstd::arithmetic::power::lemma_pow_positive(36, (total_length - prefix_len) as nat);
}

/// Validation decides by the request alone: two validations of one request
/// agree on acceptance and on the space they report.
pub proof fn lemma_validation_repeatable(
    total_length: u16,
    required_count: usize,
    prefix: Seq<char>,
    first: Result<ValidatedRequest, CouponError>,
    second: Result<ValidatedRequest, CouponError>,
)
    requires
        outcome(first) == validation_outcome(total_length, required_count, prefix.len()),
        outcome(second) == validation_outcome(total_length, required_count, prefix.len()),
    ensures
        first is Ok <==> second is Ok,
        outcome(first) == outcome(second),
{
}

/// `36^k`, capped to `u128`.
pub fn capped_space(k: usize) -> (r: u128)
    ensures
        r == capped(space(k as nat)),
{
    let mut acc: u128 = 1;
    let mut i: usize = 0;
    proof {
        reveal(pow);
    }
    while i < k
        invariant
            i <= k,
            acc == capped(space(i as nat)),
            space(i as nat) >= 1,
        decreases k - i,
    {
        proof {
            reveal(pow);
            assert(space((i + 1) as nat) == 36 * space(i as nat));
        }
        if acc == SPACE_CAP {
        } else if acc <= SPACE_CAP / 36 {
            acc = acc * 36;
        } else {
            acc = SPACE_CAP;
        }
        i = i + 1;
    }
    acc
}

/// Checks a request before any generation work: the prefix must fit in the
/// total length, and the number of codes must not exceed the space of
/// suffixes.
pub fn validate(total_length: u16, required_count: usize, prefix: &str) -> (r: Result<ValidatedRequest, CouponError>)
    ensures
        outcome(r) == validation_outcome(total_length, required_count, prefix@.len()),
        match r {
            Ok(v) => {
                &&& validation_outcome(total_length, required_count, prefix@.len()) == Ok::<u128, CouponError>(v.space)
                &&& v.wf()
                &&& v.total_length == total_length
                &&& v.prefix@ == prefix@
                &&& v.required_count == required_count
            },
            Err(e) => validation_outcome(total_length, required_count, prefix@.len()) == Err::<u128, CouponError>(e),
        },
{
    let plen = prefix.unicode_len();
    if plen > total_length as usize {
        return Err(CouponError::InitialsTooLong(plen, total_length));
    }
    let k: usize = total_length as usize - plen;
    let sp = capped_space(k);
    if required_count as u128 > sp {
        return Err(CouponError::TooManyCoupons(required_count, sp));
    }
    proof {
        if required_count > space(k as nat) {
            assert(space(k as nat) < SPACE_CAP);
        }
    }
    Ok(ValidatedRequest {
        total_length,
        prefix: String::from_str(prefix),
        required_count,
        suffix_len: k,
        space: sp,
    })
}

} // verus!
