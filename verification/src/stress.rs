//! The load generator's plan: batches of requests whose spacing halves
//! from batch to batch, and the body of each request.

use vstd::prelude::*;
use crate::decimal::{decimal, signed_decimal, push_decimal, push_signed_decimal, all_digits, digits_value, lemma_decimal_digits};

verus! {

/// The spacing of the first batch, in microseconds.
pub const FIRST_SPACING_US: u64 = 1000000;

/// The spacing below which no batch is sent, in microseconds.
pub const MIN_SPACING_US: u64 = 1000;

/// How many requests each batch sends.
pub const BATCH_SIZE: i32 = 100;

/// `start` halved `k` times, rounding down each time.
pub open spec fn halved(start: nat, k: nat) -> nat
    decreases k,
{
    if k == 0 {
        start
    } else {
        halved(start, (k - 1) as nat) / 2
    }
}

/// The spacing of every batch: `start`, then halved again and again while
/// it is at least `floor`.
pub fn spacing_schedule(start: u64, floor: u64) -> (v: Vec<u64>)
    requires
        floor > 0,
    ensures
        forall|k: int| 0 <= k < v@.len() ==> v@[k] == halved(start as nat, k as nat),
        forall|k: int| 0 <= k < v@.len() ==> v@[k] >= floor,
        halved(start as nat, v@.len()) < floor,
{
    let mut v: Vec<u64> = Vec::new();
    let mut x: u64 = start;
    while x >= floor
        invariant
            floor > 0,
            x == halved(start as nat, v@.len()),
            forall|k: int| 0 <= k < v@.len() ==> v@[k] == halved(start as nat, k as nat),
            forall|k: int| 0 <= k < v@.len() ==> v@[k] >= floor,
        decreases x,
    {
        v.push(x);
        x = x / 2;
    }
    v
}

/// The body of request `i` of the batch with spacing `spacing`.
pub open spec fn request_body_spec(spacing: u64, i: i32) -> Seq<char> {
    decimal(spacing as nat) + seq!['-'] + signed_decimal(i as int)
}

/// The body of request `i` of the batch with spacing `spacing`: both
/// numbers in decimal, joined by a dash.
pub fn request_body(spacing: u64, i: i32) -> (s: String)
    ensures
        s@ == request_body_spec(spacing, i),
{
    let mut s = String::new();
    push_decimal(&mut s, spacing);
    s.push('-');
    push_signed_decimal(&mut s, i as i64);
    assert(s@ =~= request_body_spec(spacing, i));
    s
}

/// A request body reads back as its two numbers: a run of digits that
/// denotes the spacing, a dash, then the index: for a non-negative index
/// a run of digits that denotes it (most significant first), for a
/// negative one a second dash and the digits of its magnitude.
pub proof fn lemma_request_body_reads_back(spacing: u64, i: i32)
    ensures
        exists|k: int| #![trigger request_body_spec(spacing, i).take(k)]
            0 < k < request_body_spec(spacing, i).len()
            && request_body_spec(spacing, i)[k] == '-'
            && all_digits(request_body_spec(spacing, i).take(k))
            && digits_value(request_body_spec(spacing, i).take(k)) == spacing
            && (i >= 0 ==> request_body_spec(spacing, i).skip(k + 1).len() > 0
                && all_digits(request_body_spec(spacing, i).skip(k + 1))
                && digits_value(request_body_spec(spacing, i).skip(k + 1)) == i)
            && (i < 0 ==> k + 1 < request_body_spec(spacing, i).len()
                && request_body_spec(spacing, i)[k + 1] == '-'
                && request_body_spec(spacing, i).skip(k + 2).len() > 0
                && all_digits(request_body_spec(spacing, i).skip(k + 2))
                && digits_value(request_body_spec(spacing, i).skip(k + 2)) == -i),
{
    let s = request_body_spec(spacing, i);
    let a = decimal(spacing as nat);
    lemma_decimal_digits(spacing as nat);
    let k = a.len() as int;
    assert(s.take(k) =~= a);
    assert(s[k] == '-');
    if i >= 0 {
        lemma_decimal_digits(i as nat);
        assert(s.skip(k + 1) =~= decimal(i as nat));
    } else {
        lemma_decimal_digits((-i) as nat);
        assert(s[k + 1] == '-');
        assert(s.skip(k + 2) =~= decimal((-i) as nat));
    }
    assert(0 < k < s.len());
}

} // verus!
