use std::time::{Duration, SystemTime, SystemTimeError, UNIX_EPOCH};
use vstd::prelude::*;
use vstd::utf8::{encode_utf8, encode_utf8_decode_utf8};

verus! {

/// `std::time::SystemTime`, carried through as an opaque value.
#[verifier::external_type_specification]
#[verifier::external_body]
pub struct ExSystemTime(SystemTime);

/// `std::time::SystemTimeError`, carried through as an opaque value.
#[verifier::external_type_specification]
#[verifier::external_body]
pub struct ExSystemTimeError(SystemTimeError);

/// Calls `SystemTime::now`. The reading depends on the machine's clock, so
/// nothing is claimed of it.
#[verifier::external_body]
fn wall_clock() -> SystemTime {
    SystemTime::now()
}

/// Calls `SystemTime::duration_since` against `UNIX_EPOCH`. It fails when the
/// instant lies before the epoch; nothing else is claimed.
#[verifier::external_body]
fn since_unix_epoch(instant: &SystemTime) -> Result<Duration, SystemTimeError> {
    instant.duration_since(UNIX_EPOCH)
}

/// Calls `Duration::as_millis`: the whole milliseconds in the span.
#[verifier::external_body]
fn whole_millis(span: &Duration) -> u128 {
    span.as_millis()
}

/// Milliseconds since the Unix epoch by the machine's clock: whatever the
/// clock reads, as `timestamp_of` takes it. Nothing is promised of the value.
pub fn current_timestamp() -> u128 {
    let now = wall_clock();
    let since_epoch = match since_unix_epoch(&now) {
        Ok(elapsed) => Some(whole_millis(&elapsed)),
        Err(_) => None,
    };
    timestamp_of(since_epoch)
}

/// The timestamp that a reading of the clock stands for: the milliseconds
/// counted since the epoch, or 0 where the clock stood before the epoch and
/// there is nothing to count.
pub fn timestamp_of(since_epoch: Option<u128>) -> (timestamp: u128)
    ensures
        timestamp == match since_epoch {
            Some(millis) => millis,
            None => 0,
        },
{
    match since_epoch {
        Some(millis) => millis,
        None => 0,
    }
}

/// The decimal digits of `n` as ASCII bytes, most significant first, without
/// leading zeros (`0` is the single digit `"0"`).
pub open spec fn decimal_digits(n: nat) -> Seq<u8>
    decreases n,
{
    if n < 10 {
        seq![(48 + n) as u8]
    } else {
        decimal_digits(n / 10).push((48 + n % 10) as u8)
    }
}

/// Renders `n` in decimal.
pub fn decimal_bytes(n: u128) -> (out: Vec<u8>)
    ensures
        out@ == decimal_digits(n as nat),
{
    let mut out: Vec<u8> = Vec::new();
    let mut rest: u128 = n;
    while rest >= 10
        invariant
            decimal_digits(n as nat) == decimal_digits(rest as nat) + out@,
        decreases rest,
    {
        let digit: u8 = 48 + (rest % 10) as u8;
        proof {
            let shorter = decimal_digits((rest / 10) as nat);
            assert(decimal_digits(rest as nat) == shorter.push(digit));
            assert(shorter.push(digit) + out@ =~= shorter + out@.insert(0, digit));
        }
        out.insert(0, digit);
        rest = rest / 10;
    }
    let digit: u8 = 48 + rest as u8;
    proof {
        assert(decimal_digits(rest as nat) + out@ =~= out@.insert(0, digit));
    }
    out.insert(0, digit);
    out
}

/// Appends `part` to `buffer`.
pub fn append_bytes(buffer: &mut Vec<u8>, part: &[u8])
    ensures
        final(buffer)@ == old(buffer)@ + part@,
{
    let mut i: usize = 0;
    while i < part.len()
        invariant
            i <= part@.len(),
            buffer@ == old(buffer)@ + part@.subrange(0, i as int),
        decreases part@.len() - i,
    {
        buffer.push(part[i]);
        i = i + 1;
        assert(buffer@ =~= old(buffer)@ + part@.subrange(0, i as int));
    }
    assert(part@.subrange(0, i as int) =~= part@);
}

/// Texts with the same UTF-8 bytes are the same text.
pub proof fn lemma_utf8_injective(a: Seq<char>, b: Seq<char>)
    requires
        encode_utf8(a) == encode_utf8(b),
    ensures
        a == b,
{
    encode_utf8_decode_utf8(a);
    encode_utf8_decode_utf8(b);
}

/// Whether two pieces of text are the same.
pub fn same_text(a: &str, b: &str) -> (same: bool)
    ensures
        same == (a@ == b@),
{
    let left = a.as_bytes();
    let right = b.as_bytes();
    if left.len() != right.len() {
        return false;
    }
    let mut i: usize = 0;
    while i < left.len()
        invariant
            left@.len() == right@.len(),
            i <= left@.len(),
            left@ == encode_utf8(a@),
            right@ == encode_utf8(b@),
            forall|k: int| 0 <= k < i ==> left@[k] == right@[k],
        decreases left@.len() - i,
    {
        if left[i] != right[i] {
            return false;
        }
        i = i + 1;
    }
    proof {
        assert(left@ =~= right@);
        lemma_utf8_injective(a@, b@);
    }
    true
}

} // verus!
