use vstd::prelude::*;
use vstd::utf8::encode_utf8;

verus! {

/// ASCII upper-case letters map to lower case; every other byte stays.
pub open spec fn ascii_lower(b: u8) -> u8 {
    if 65 <= b && b <= 90 {
        (b + 32) as u8
    } else {
        b
    }
}

/// The key under which two email addresses are the same: their UTF-8 bytes with
/// ASCII letters folded to lower case.
pub open spec fn email_key(s: Seq<char>) -> Seq<u8> {
    encode_utf8(s).map_values(|b: u8| ascii_lower(b))
}

fn lower_byte(b: u8) -> (r: u8)
    ensures
        r == ascii_lower(b),
{
    if 65 <= b && b <= 90 {
        b + 32
    } else {
        b
    }
}

/// Compares two email addresses ignoring ASCII case.
pub fn same_email(a: &str, b: &str) -> (r: bool)
    ensures
        r == (email_key(a@) == email_key(b@)),
{
    let x = a.as_bytes();
    let y = b.as_bytes();
    if x.len() != y.len() {
        assert(email_key(a@).len() != email_key(b@).len());
        return false;
    }
    let mut i: usize = 0;
    while i < x.len()
        invariant
            x@ == encode_utf8(a@),
            y@ == encode_utf8(b@),
            x@.len() == y@.len(),
            i <= x@.len(),
            forall|k: int| 0 <= k < i ==> ascii_lower(#[trigger] x@[k]) == ascii_lower(y@[k]),
        decreases x@.len() - i,
    {
        if lower_byte(x[i]) != lower_byte(y[i]) {
            assert(email_key(a@)[i as int] != email_key(b@)[i as int]);
            return false;
        }
        i = i + 1;
    }
    assert(email_key(a@) =~= email_key(b@));
    true
}

} // verus!
