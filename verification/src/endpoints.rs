//! The resource model: how each fetchable resource maps to a request path
//! and whether it needs the account credential. Pure; no I/O.

use vstd::prelude::*;
use vstd::utf8::decode_utf8_encode_utf8;
use vstd::utf8::encode_utf8;
use vstd::utf8::is_ascii_chars;
use vstd::utf8::is_ascii_chars_encode_utf8;
use vstd::utf8::is_leading_byte_width_1;
use vstd::utf8::partial_valid_utf8;
use vstd::utf8::partial_valid_utf8_extend_ascii_block;
use vstd::utf8::valid_utf8;

use crate::api::AccountAchievement;
use crate::api::Achievement;
use crate::api::AllAccountAchievements;
use crate::api::AllAchievementIDs;
use crate::api::Dailies;
use crate::codec::ser_usize;
use crate::codec::usize_s;
use crate::combinators::lemma_ser_elems_snoc;
use crate::combinators::ser_elems;
use crate::json::dec_digits;
use crate::json::emit_lit;
use crate::json::emit_u64;
use crate::json::is_digit;
use crate::json::lemma_dec_digits_props;
use crate::json::lit_bytes;

verus! {

/// A byte sequence of ASCII bytes only is well-formed UTF-8.
pub proof fn lemma_ascii_valid(s: Seq<u8>)
    requires
        forall|i: int| 0 <= i < s.len() ==> s[i] < 0x80,
    ensures
        valid_utf8(s),
{
    assert(s.subrange(0, 0) =~= Seq::<u8>::empty());
    assert(partial_valid_utf8(s, 0));
    assert(forall|i: int| 0 <= i < s.len() ==> #[trigger] is_leading_byte_width_1(s[i]));
    partial_valid_utf8_extend_ascii_block(s, 0, s.len() as int);
    assert(s.subrange(0, s.len() as int) =~= s);
}

/// Turn a buffer of ASCII bytes into the string with exactly those bytes.
pub(crate) fn ascii_to_string(v: Vec<u8>) -> (r: String)
    requires
        forall|i: int| 0 <= i < v@.len() ==> v@[i] < 0x80,
    ensures
        encode_utf8(r@) == v@,
{
    proof {
        lemma_ascii_valid(v@);
        broadcast use decode_utf8_encode_utf8;

    }
    match crate::ext::bytes_to_string(v) {
        Some(st) => st,
        None => {
            proof {
                assert(false);
            }
            String::new()
        },
    }
}

/// Every byte of a joined id list is a digit or a comma.
proof fn lemma_joined_ids_ascii(ids: Seq<usize>)
    ensures
        forall|i: int|
            0 <= i < ser_elems(usize_s(), ids).len() ==> #[trigger] ser_elems(usize_s(), ids)[i]
                < 0x80,
    decreases ids.len(),
{
    if ids.len() == 0 {
    } else if ids.len() == 1 {
        lemma_dec_digits_props(ids[0] as u64);
        assert(forall|i: int|
            0 <= i < dec_digits(ids[0] as u64).len() ==> is_digit(
                #[trigger] dec_digits(ids[0] as u64)[i],
            ));
    } else {
        lemma_dec_digits_props(ids[0] as u64);
        assert(forall|i: int|
            0 <= i < dec_digits(ids[0] as u64).len() ==> is_digit(
                #[trigger] dec_digits(ids[0] as u64)[i],
            ));
        lemma_joined_ids_ascii(ids.drop_first());
        let a = ser_usize(ids[0]);
        let tail = ser_elems(usize_s(), ids.drop_first());
        assert(ser_elems(usize_s(), ids) == a + seq![0x2cu8] + tail);
        assert forall|i: int|
            0 <= i < ser_elems(usize_s(), ids).len() implies #[trigger] ser_elems(
            usize_s(),
            ids,
        )[i] < 0x80 by {
            if i < a.len() {
                assert(ser_elems(usize_s(), ids)[i] == a[i]);
                assert(is_digit(a[i]));
            } else if i == a.len() {
                assert(ser_elems(usize_s(), ids)[i] == 0x2cu8);
            } else {
                assert(ser_elems(usize_s(), ids)[i] == tail[i - a.len() - 1]);
            }
        }
    }
}

/// Append the comma-joined decimal ids to `buf`: one batch query for many
/// keys in a single request.
#[verifier::loop_isolation(false)]
fn emit_joined_ids(buf: &mut Vec<u8>, ids: &Vec<usize>)
    ensures
        final(buf)@ == old(buf)@ + ser_elems(usize_s(), ids@),
{
    let n = ids.len();
    let mut k: usize = 0;
    while k < n
        invariant
            0 <= k <= n,
            k == 0 ==> buf@ == old(buf)@,
            k > 0 ==> buf@ == old(buf)@ + ser_elems(usize_s(), ids@.take(k as int)),
        decreases n - k,
    {
        if k > 0 {
            buf.push(0x2c);
        }
        emit_u64(buf, ids[k] as u64);
        proof {
            lemma_ser_elems_snoc(usize_s(), ids@.take(k as int), ids@[k as int]);
            assert(ids@.take(k + 1) =~= ids@.take(k as int).push(ids@[k as int]));
            assert(buf@ =~= old(buf)@ + ser_elems(usize_s(), ids@.take(k + 1)));
        }
        k += 1;
    }
    proof {
        if n > 0 {
            assert(ids@.take(n as int) =~= ids@);
        } else {
            assert(ser_elems(usize_s(), ids@) =~= Seq::<u8>::empty());
            assert(buf@ =~= old(buf)@ + ser_elems(usize_s(), ids@));
        }
    }
}

/// Build `prefix` followed by the joined ids, as a string.
fn build_ids_path(prefix: &str, ids: &Vec<usize>) -> (r: String)
    requires
        forall|i: int|
            0 <= i < lit_bytes(prefix@).len() ==> #[trigger] lit_bytes(prefix@)[i] < 0x80,
    ensures
        encode_utf8(r@) == lit_bytes(prefix@) + ser_elems(usize_s(), ids@),
{
    let mut buf: Vec<u8> = Vec::new();
    emit_lit(&mut buf, prefix);
    emit_joined_ids(&mut buf, ids);
    proof {
        lemma_joined_ids_ascii(ids@);
        assert(buf@ =~= lit_bytes(prefix@) + ser_elems(usize_s(), ids@));
        assert(forall|i: int| 0 <= i < buf@.len() ==> buf@[i] < 0x80);
    }
    ascii_to_string(buf)
}

/// Build a fixed path, as a string.
fn build_plain_path(path: &str) -> (r: String)
    requires
        forall|i: int| 0 <= i < lit_bytes(path@).len() ==> #[trigger] lit_bytes(path@)[i] < 0x80,
    ensures
        encode_utf8(r@) == lit_bytes(path@),
{
    let mut buf: Vec<u8> = Vec::new();
    emit_lit(&mut buf, path);
    ascii_to_string(buf)
}

/// An ASCII literal has ASCII literal bytes.
proof fn lemma_lit_bytes_ascii(t: Seq<char>)
    requires
        is_ascii_chars(t),
    ensures
        forall|i: int| 0 <= i < lit_bytes(t).len() ==> #[trigger] lit_bytes(t)[i] < 0x80,
{
    reveal(lit_bytes);
    is_ascii_chars_encode_utf8(t);
}

/// Represents how and where to access the requested data.
pub trait Endpoint {
    /// Whether the endpoint requires an API key from the user.
    spec fn spec_authenticated() -> bool;

    /// The path to the endpoint for the given keys, as bytes.
    spec fn spec_path(ids: Seq<usize>) -> Seq<u8>;

    fn authenticated() -> (b: bool)
        ensures
            b == Self::spec_authenticated(),
    ;

    /// Build the url path to the endpoint from the provided keys.
    fn get_path(ids: &Vec<usize>) -> (r: String)
        ensures
            encode_utf8(r@) == Self::spec_path(ids@),
    ;
}

impl Endpoint for AllAchievementIDs {
    open spec fn spec_authenticated() -> bool {
        false
    }

    open spec fn spec_path(ids: Seq<usize>) -> Seq<u8> {
        lit_bytes("v2/achievements"@)
    }

    fn authenticated() -> bool {
        false
    }

    fn get_path(ids: &Vec<usize>) -> (r: String) {
        proof {
            reveal_strlit("v2/achievements");
            lemma_lit_bytes_ascii("v2/achievements"@);
        }
        build_plain_path("v2/achievements")
    }
}

impl Endpoint for Achievement {
    open spec fn spec_authenticated() -> bool {
        false
    }

    open spec fn spec_path(ids: Seq<usize>) -> Seq<u8> {
        lit_bytes("v2/achievements?ids="@) + ser_elems(usize_s(), ids)
    }

    fn authenticated() -> bool {
        false
    }

    fn get_path(ids: &Vec<usize>) -> (r: String) {
        proof {
            reveal_strlit("v2/achievements?ids=");
            lemma_lit_bytes_ascii("v2/achievements?ids="@);
        }
        build_ids_path("v2/achievements?ids=", ids)
    }
}

impl Endpoint for AccountAchievement {
    open spec fn spec_authenticated() -> bool {
        true
    }

    open spec fn spec_path(ids: Seq<usize>) -> Seq<u8> {
        lit_bytes("v2/account/achievements?ids="@) + ser_elems(usize_s(), ids)
    }

    fn authenticated() -> bool {
        true
    }

    fn get_path(ids: &Vec<usize>) -> (r: String) {
        proof {
            reveal_strlit("v2/account/achievements?ids=");
            lemma_lit_bytes_ascii("v2/account/achievements?ids="@);
        }
        build_ids_path("v2/account/achievements?ids=", ids)
    }
}

impl Endpoint for AllAccountAchievements {
    open spec fn spec_authenticated() -> bool {
        true
    }

    open spec fn spec_path(ids: Seq<usize>) -> Seq<u8> {
        lit_bytes("v2/account/achievements"@)
    }

    fn authenticated() -> bool {
        true
    }

    fn get_path(ids: &Vec<usize>) -> (r: String) {
        proof {
            reveal_strlit("v2/account/achievements");
            lemma_lit_bytes_ascii("v2/account/achievements"@);
        }
        build_plain_path("v2/account/achievements")
    }
}

impl Endpoint for Dailies {
    open spec fn spec_authenticated() -> bool {
        false
    }

    open spec fn spec_path(ids: Seq<usize>) -> Seq<u8> {
        lit_bytes("v2/achievements/daily"@)
    }

    fn authenticated() -> bool {
        false
    }

    fn get_path(ids: &Vec<usize>) -> (r: String) {
        proof {
            reveal_strlit("v2/achievements/daily");
            lemma_lit_bytes_ascii("v2/achievements/daily"@);
        }
        build_plain_path("v2/achievements/daily")
    }
}

} // verus!
