use vstd::prelude::*;
use vstd::string::StrSliceExecFns;
use crate::text::{push_char, push_str};

verus! {

/// The base62 text of a number, standard alphabet (0-9, A-Z, a-z). The
/// result depends on the number alone.
pub uninterp spec fn base62_of(n: u128) -> Seq<char>;

/// Relies on base62::encode: the base62 digits of the number, standard
/// alphabet.
#[verifier::external_body]
fn base62_encode(n: u128) -> (r: String)
    ensures
        r@ == base62_of(n),
{
    base62::encode(n)
}

/// A name with every dash replaced by an underscore.
pub open spec fn dash_to_underscore(s: Seq<char>) -> Seq<char> {
    s.map_values(|c: char| if c == '-' { '_' } else { c })
}

fn sanitize_name(name: &str) -> (r: String)
    ensures
        r@ == dash_to_underscore(name@),
{
    let n = name.unicode_len();
    let mut r = String::new();
    let mut i: usize = 0;
    while i < n
        invariant
            i <= n,
            n == name@.len(),
            r@.len() == i,
            forall|j: int| 0 <= j < i ==> r@[j] == dash_to_underscore(name@)[j],
        decreases n - i,
    {
        let c = name.get_char(i);
        if c == '-' {
            push_char(&mut r, '_');
        } else {
            push_char(&mut r, c);
        }
        i += 1;
    }
    proof {
        assert(r@ =~= dash_to_underscore(name@));
    }
    r
}

/// The per-application data keyspace name: the application name with dashes
/// replaced by underscores, an underscore, and the instance id in base62.
/// Identical inputs always yield the same name.
pub fn data_keyspace(instance: u128, name: &str) -> (r: String)
    ensures
        r@ == dash_to_underscore(name@) + seq!['_'] + base62_of(instance),
{
    let mut r = sanitize_name(name);
    push_char(&mut r, '_');
    let enc = base62_encode(instance);
    push_str(&mut r, enc.as_str());
    proof {
        assert(r@ =~= dash_to_underscore(name@) + seq!['_'] + base62_of(instance));
    }
    r
}

/// Name of the keyspace that holds application metadata (registered
/// applications, applied migrations). It is fixed for every deployment.
pub fn meta_keyspace() -> (r: &'static str)
    ensures
        r@ == "app_metadata"@,
{
    "app_metadata"
}

} // verus!
