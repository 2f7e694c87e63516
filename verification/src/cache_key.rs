//! Names of cached contents.

use md5::{Digest, Md5};
use vstd::prelude::*;
use vstd::string::*;
use vstd::utf8::*;

use crate::encoding::{hex_lower, hex_text, hex_text_len, law_hex_digits, shows_byte, to_hex};
use crate::text::{decimal, decimal_properties, is_digit};

verus! {

broadcast use vstd::string::group_string_axioms;

/// The MD5 digest of `data`.
pub uninterp spec fn md5_digest(data: Seq<u8>) -> Seq<u8>;

/// `Md5::digest`: the 16 bytes of the MD5 digest, which depends on the data alone.
#[verifier::external_body]
fn md5_of(data: &[u8]) -> (digest: Vec<u8>)
    ensures
        digest@ == md5_digest(data@),
        digest@.len() == 16,
{
    Md5::digest(data).to_vec()
}

/// The text of a modification date; a missing date reads `unknown`.
pub open spec fn date_text(date: Option<String>) -> Seq<char> {
    match date {
        Some(d) => d@,
        None => "unknown"@,
    }
}

/// What is hashed for a node: its id, a hyphen and its modification date.
pub open spec fn cache_input(id: Seq<char>, date: Seq<char>) -> Seq<char> {
    id + "-"@ + date
}

/// The name under which the content of a node is cached.
pub open spec fn cache_key(id: Seq<char>, date: Seq<char>) -> Seq<char> {
    hex_text(md5_digest(encode_utf8(cache_input(id, date))))
}

/// What is hashed for the node `id` of the given modification date.
pub fn cache_input_text(id: &str, date: &Option<String>) -> (input: String)
    ensures
        input@ == cache_input(id@, date_text(*date)),
        input@ == id@ + "-"@ + match date {
            Some(d) => d@,
            None => "unknown"@,
        },
{
    let mut input: String = id.to_owned();
    input.append("-");
    match date {
        Some(d) => input.append(d.as_str()),
        None => input.append("unknown"),
    }
    input
}

/// The name under which the content of the node `id` of the given modification date is cached.
pub fn cache_key_of(id: &str, date: &Option<String>) -> (key: String)
    ensures
        key@ == cache_key(id@, date_text(*date)),
        key@.len() == 32,
{
    let input: String = cache_input_text(id, date);
    let digest: Vec<u8> = md5_of(input.as_str().as_bytes());
    proof {
        hex_text_len(digest@);
    }
    to_hex(&digest)
}

// ---- laws ----

/// A changed modification date changes what is hashed.
pub proof fn law_date_changes_input(id: Seq<char>, left: Seq<char>, right: Seq<char>)
    requires
        left != right,
    ensures
        cache_input(id, left) != cache_input(id, right),
{
    let n = (id + "-"@).len() as int;
    if cache_input(id, left) == cache_input(id, right) {
        assert(cache_input(id, left).skip(n) =~= left);
        assert(cache_input(id, right).skip(n) =~= right);
    }
}

/// Another id of the same date changes what is hashed.
pub proof fn law_id_changes_input(left: Seq<char>, right: Seq<char>, date: Seq<char>)
    requires
        left != right,
    ensures
        cache_input(left, date) != cache_input(right, date),
{
    if cache_input(left, date) == cache_input(right, date) {
        let n = left.len() as int;
        let m = right.len() as int;
        assert(cache_input(left, date).len() == cache_input(right, date).len());
        assert(cache_input(left, date).take(n) =~= left);
        assert(cache_input(right, date).take(m) =~= right);
    }
}

/// For numeric ids, what is hashed determines both the id and the date.
pub proof fn law_numeric_input_injective(a: nat, left: Seq<char>, b: nat, right: Seq<char>)
    requires
        cache_input(decimal(a), left) == cache_input(decimal(b), right),
    ensures
        a == b,
        left == right,
{
    reveal_strlit("-");
    let x = cache_input(decimal(a), left);
    let y = cache_input(decimal(b), right);
    let n = decimal(a).len() as int;
    let m = decimal(b).len() as int;
    decimal_properties(a);
    decimal_properties(b);
    assert(x[n] == '-');
    assert(y[m] == '-');
    if n < m {
        assert(y[n] == decimal(b)[n]);
        assert(is_digit(decimal(b)[n]));
    } else if m < n {
        assert(x[m] == decimal(a)[m]);
        assert(is_digit(decimal(a)[m]));
    }
    assert(x.take(n) =~= decimal(a));
    assert(y.take(m) =~= decimal(b));
    assert(x.skip(n + 1) =~= left);
    assert(y.skip(m + 1) =~= right);
}

/// Hexadecimal notation determines the bytes.
pub proof fn law_hex_injective(left: Seq<u8>, right: Seq<u8>)
    requires
        hex_text(left) == hex_text(right),
    ensures
        left == right,
    decreases left.len(),
{
    hex_text_len(left);
    hex_text_len(right);
    if left.len() > 0 {
        let x = hex_text(left);
        let y = hex_text(right);
        assert(x.drop_last().drop_last() =~= hex_text(left.drop_last()));
        assert(y.drop_last().drop_last() =~= hex_text(right.drop_last()));
        law_hex_injective(left.drop_last(), right.drop_last());
        assert(x.last() == hex_lower((left.last() % 16) as nat));
        assert(y.last() == hex_lower((right.last() % 16) as nat));
        assert(x.drop_last().last() == hex_lower((left.last() / 16) as nat));
        assert(y.drop_last().last() == hex_lower((right.last() / 16) as nat));
        assert(left.last() == right.last());
        assert(left =~= left.drop_last().push(left.last()));
        assert(right =~= right.drop_last().push(right.last()));
    } else {
        assert(left =~= right);
    }
}

/// Two cached contents share a name only where MD5 gives both their inputs the same digest.
pub proof fn law_shared_key_is_shared_digest(
    id: Seq<char>,
    date: Seq<char>,
    other_id: Seq<char>,
    other_date: Seq<char>,
)
    ensures
        cache_key(id, date) == cache_key(other_id, other_date) <==> md5_digest(
            encode_utf8(cache_input(id, date)),
        ) == md5_digest(encode_utf8(cache_input(other_id, other_date))),
{
    if cache_key(id, date) == cache_key(other_id, other_date) {
        law_hex_injective(
            md5_digest(encode_utf8(cache_input(id, date))),
            md5_digest(encode_utf8(cache_input(other_id, other_date))),
        );
    }
}

/// The name of a cached content shows the digest of what is hashed, each byte in two digits.
pub proof fn law_key_shows_digest(id: Seq<char>, date: Seq<char>, i: int)
    requires
        0 <= i < md5_digest(encode_utf8(id + seq!['-'] + date)).len(),
    ensures
        cache_key(id, date).len() == 2 * md5_digest(encode_utf8(id + seq!['-'] + date)).len(),
        shows_byte(
            cache_key(id, date),
            2 * i,
            md5_digest(encode_utf8(id + seq!['-'] + date))[i],
        ),
{
    reveal_strlit("-");
    assert("-"@ =~= seq!['-']);
    law_hex_digits(md5_digest(encode_utf8(id + seq!['-'] + date)));
}

/// What is hashed is the id, a hyphen and the date, each whole.
pub proof fn law_input_parts(id: Seq<char>, date: Seq<char>)
    ensures
        cache_input(id, date).len() == id.len() + 1 + date.len(),
        cache_input(id, date).take(id.len() as int) == id,
        cache_input(id, date)[id.len() as int] == '-',
        cache_input(id, date).skip((id.len() + 1) as int) == date,
{
    reveal_strlit("-");
    assert(cache_input(id, date).take(id.len() as int) =~= id);
    assert(cache_input(id, date).skip((id.len() + 1) as int) =~= date);
}

/// A document that has been edited, so that its date is another, is hashed otherwise than before,
/// whatever the two dates are.
pub proof fn law_edited_document_is_hashed_anew(id: Seq<char>, before: String, behind: String)
    requires
        before@ != behind@,
    ensures
        cache_input(id, date_text(Some(before))) != cache_input(id, date_text(Some(behind))),
        cache_input(id, date_text(Some(before))).skip((id.len() + 1) as int) == before@,
{
    law_input_parts(id, date_text(Some(before)));
    law_input_parts(id, date_text(Some(behind)));
}

/// A document whose date becomes known is hashed otherwise than before, unless the date reads as an
/// unknown one does.
pub proof fn law_date_becomes_known(id: Seq<char>, date: String)
    ensures
        date_text(None) == "unknown"@,
        date@ != "unknown"@ ==> cache_input(id, date_text(None)) != cache_input(
            id,
            date_text(Some(date)),
        ),
{
    law_input_parts(id, date_text(None));
    law_input_parts(id, date_text(Some(date)));
}

} // verus!
