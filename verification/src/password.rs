//! The password generator: a stateless utility producing a random password
//! that always carries at least one uppercase letter, one lowercase letter,
//! one digit and one special character, shuffled together with random
//! alphanumeric filler.

use vstd::prelude::*;
use vstd::string::StrSliceExecFns;

use rand::seq::SliceRandom;
use rand::Rng;

verus! {

broadcast use vstd::seq_lib::group_to_multiset_ensures;

pub open spec fn uppercase_chars() -> Seq<char> {
    "ABCDEFGHIJKLMNOPQRSTUVWXYZ"@
}

pub open spec fn lowercase_chars() -> Seq<char> {
    "abcdefghijklmnopqrstuvwxyz"@
}

pub open spec fn digit_chars() -> Seq<char> {
    "0123456789"@
}

pub open spec fn special_chars() -> Seq<char> {
    "!@#$%^&*()"@
}

pub open spec fn is_alphanumeric_char(c: char) -> bool {
    uppercase_chars().contains(c) || lowercase_chars().contains(c) || digit_chars().contains(c)
}

/// What a generated password may hold: a letter, a digit, or one of the
/// special characters.
pub open spec fn is_password_char(c: char) -> bool {
    is_alphanumeric_char(c) || special_chars().contains(c)
}

/// Relies on rand::Rng::gen_range over rand::thread_rng: a random index
/// below `n`; nothing but the bound holds of any outcome.
#[verifier::external_body]
fn rand_below(n: usize) -> (r: usize)
    requires
        n > 0,
    ensures
        r < n,
{
    rand::thread_rng().gen_range(0..n)
}

/// Relies on rand::Rng::sample_iter with rand::distributions::Alphanumeric:
/// exactly `n` characters, each one of `a`-`z`, `A`-`Z` or `0`-`9`; which
/// ones come back is random.
#[verifier::external_body]
fn rand_alphanumeric(n: usize) -> (r: Vec<char>)
    ensures
        r@.len() == n,
        forall|i: int| 0 <= i < r@.len() ==> is_alphanumeric_char(#[trigger] r@[i]),
{
    rand::thread_rng().sample_iter(&rand::distributions::Alphanumeric).take(n).map(
        char::from,
    ).collect()
}

/// Relies on rand::seq::SliceRandom::shuffle over rand::thread_rng: permutes
/// the characters in place, so their multiset is unchanged; the order is
/// random.
#[verifier::external_body]
fn shuffle_chars(v: &mut Vec<char>)
    ensures
        final(v)@.to_multiset() == old(v)@.to_multiset(),
{
    v.shuffle(&mut rand::thread_rng());
}

/// Relies on the std collection of an iterator of chars into a `String`:
/// exactly the characters given, in order.
#[verifier::external_body]
fn string_from_chars(v: &Vec<char>) -> (r: String)
    ensures
        r@ == v@,
{
    v.iter().collect()
}

/// One character of a non-empty set, picked at random.
fn pick_char(set: &str) -> (c: char)
    requires
        set@.len() > 0,
    ensures
        set@.contains(c),
{
    let n = set.unicode_len();
    let i = rand_below(n);
    let c = set.get_char(i);
    proof {
        assert(set@[i as int] == c);
    }
    c
}

/// Generates a random password of `length` characters (at least four): one
/// character from each of the uppercase, lowercase, digit and special sets,
/// the rest alphanumeric filler, all shuffled together; nothing outside
/// those sets ever appears.
pub fn generate_password(length: usize) -> (r: String)
    ensures
        r@.len() == if length <= 4 {
            4int
        } else {
            length as int
        },
        exists|c: char| uppercase_chars().contains(c) && r@.contains(c),
        exists|c: char| lowercase_chars().contains(c) && r@.contains(c),
        exists|c: char| digit_chars().contains(c) && r@.contains(c),
        exists|c: char| special_chars().contains(c) && r@.contains(c),
        forall|i: int| 0 <= i < r@.len() ==> is_password_char(#[trigger] r@[i]),
{
    proof {
        reveal_strlit("ABCDEFGHIJKLMNOPQRSTUVWXYZ");
        reveal_strlit("abcdefghijklmnopqrstuvwxyz");
        reveal_strlit("0123456789");
        reveal_strlit("!@#$%^&*()");
    }
    let upper = pick_char("ABCDEFGHIJKLMNOPQRSTUVWXYZ");
    let lower = pick_char("abcdefghijklmnopqrstuvwxyz");
    let digit = pick_char("0123456789");
    let special = pick_char("!@#$%^&*()");
    let mut chars: Vec<char> = Vec::new();
    chars.push(upper);
    chars.push(lower);
    chars.push(digit);
    chars.push(special);
    let remaining: usize = if length > 4 {
        length - 4
    } else {
        0
    };
    let filler = rand_alphanumeric(remaining);
    let ghost base = chars@;
    let mut i: usize = 0;
    while i < filler.len()
        invariant
            0 <= i <= filler.len(),
            chars@ == base + filler@.take(i as int),
        decreases filler.len() - i,
    {
        chars.push(filler[i]);
        proof {
            assert(filler@.take(i as int + 1) =~= filler@.take(i as int).push(filler@[i as int]));
            assert(chars@ =~= base + filler@.take(i as int + 1));
        }
        i = i + 1;
    }
    proof {
        assert(filler@.take(filler@.len() as int) =~= filler@);
    }
    let ghost unshuffled = chars@;
    shuffle_chars(&mut chars);
    let out = string_from_chars(&chars);
    proof {
        assert(unshuffled.len() == 4 + filler@.len());
        assert(unshuffled[0] == upper && unshuffled[1] == lower && unshuffled[2] == digit
            && unshuffled[3] == special);
        assert(unshuffled.contains(upper) && unshuffled.contains(lower) && unshuffled.contains(
            digit,
        ) && unshuffled.contains(special));
        assert(chars@.to_multiset().len() == unshuffled.to_multiset().len());
        assert(unshuffled.to_multiset().count(upper) > 0);
        assert(unshuffled.to_multiset().count(lower) > 0);
        assert(unshuffled.to_multiset().count(digit) > 0);
        assert(unshuffled.to_multiset().count(special) > 0);
        assert(chars@.to_multiset().count(upper) > 0);
        assert(chars@.to_multiset().count(lower) > 0);
        assert(chars@.to_multiset().count(digit) > 0);
        assert(chars@.to_multiset().count(special) > 0);
        assert(out@.contains(upper) && out@.contains(lower) && out@.contains(digit)
            && out@.contains(special));
        assert(uppercase_chars().contains(upper) && out@.contains(upper));
        assert(lowercase_chars().contains(lower) && out@.contains(lower));
        assert(digit_chars().contains(digit) && out@.contains(digit));
        assert(special_chars().contains(special) && out@.contains(special));
        assert forall|i: int| 0 <= i < unshuffled.len() implies is_password_char(
            #[trigger] unshuffled[i],
        ) by {
            if i >= 4 {
                assert(unshuffled[i] == filler@[i - 4]);
            }
        }
        assert forall|i: int| 0 <= i < out@.len() implies is_password_char(#[trigger] out@[i]) by {
            let c = chars@[i];
            assert(chars@.contains(c));
            assert(chars@.to_multiset().count(c) > 0);
            assert(unshuffled.to_multiset().count(c) > 0);
            assert(unshuffled.contains(c));
            let j = choose|j: int| 0 <= j < unshuffled.len() && unshuffled[j] == c;
            assert(is_password_char(unshuffled[j]));
        }
    }
    out
}

} // verus!
