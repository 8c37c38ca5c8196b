//! The field-ID minifier: a pure bijection between non-negative integers and
//! finite lowercase-letter strings.
//!
//! A field ID identifies a field among its siblings. In JSON-shaped output it
//! appears as its minified name (`0` is `"a"`, `25` is `"z"`, `26` is `"aa"`),
//! while the binary format addresses fields by the number alone.
//!
//! The mapping is bijective (not positional) base 26: digits are 1-indexed
//! internally and shifted to 0-indexed output, so `"a"` and `"aa"` are
//! distinct values and no leading-digit ambiguity exists. Minifying to
//! lowercase letters only keeps the scheme trivial for third-party tooling:
//! no escaping in query strings, no digit-only names that JavaScript engines
//! mistake for array indices, no surrogate pairs.

use vstd::arithmetic::div_mod::lemma_fundamental_div_mod;
use vstd::prelude::*;

use crate::types::FieldId;

verus! {

/// The letter that stands for digit `k`: `0` is `'a'`, `25` is `'z'`.
pub open spec fn spec_letter(k: nat) -> char
    recommends
        k < 26,
{
    (97 + k) as char
}

/// True when `c` is a lowercase ASCII letter.
pub open spec fn spec_is_lower(c: char) -> bool {
    'a' <= c <= 'z'
}

/// True when every character of `s` is a lowercase ASCII letter.
pub open spec fn spec_name_chars_ok(s: Seq<char>) -> bool {
    forall|i: int| 0 <= i < s.len() ==> spec_is_lower(#[trigger] s[i])
}

/// The minified name of `n`: the last digit is `n mod 26`, the digits before
/// it spell `n / 26 - 1`, and a value below 26 is a single letter.
pub open spec fn spec_to_string(n: nat) -> Seq<char>
    decreases n,
{
    if n < 26 {
        seq![spec_letter(n)]
    } else {
        spec_to_string((n / 26 - 1) as nat).push(spec_letter(n % 26))
    }
}

/// The 1-indexed positional value of a name: each letter contributes its
/// 1-indexed digit (`'a'` is 1, `'z'` is 26) times a power of 26.
pub open spec fn spec_name_value(s: Seq<char>) -> int
    decreases s.len(),
{
    if s.len() == 0 {
        0
    } else {
        spec_name_value(s.drop_last()) * 26 + (s.last() as int - 96)
    }
}

/// The field ID a name stands for: `None` for the empty name, for any
/// character outside `a..z`, and for a value too large for 64 bits;
/// otherwise the name's 1-indexed value shifted back to 0-indexed space.
pub open spec fn spec_from_string(s: Seq<char>) -> Option<FieldId> {
    if s.len() == 0 || !spec_name_chars_ok(s) {
        None
    } else if spec_name_value(s) - 1 > u64::MAX {
        None
    } else {
        Some((spec_name_value(s) - 1) as FieldId)
    }
}

/// A name's value never exceeds the value of the whole string it prefixes,
/// as long as the remaining characters are lowercase letters.
proof fn lemma_value_prefix_le(s: Seq<char>, i: int)
    requires
        0 <= i <= s.len(),
        spec_name_chars_ok(s),
    ensures
        spec_name_value(s.take(i)) <= spec_name_value(s),
    decreases s.len() - i,
{
    lemma_value_nonneg(s.take(i));
    if i < s.len() {
        assert(s.take(i + 1).drop_last() =~= s.take(i));
        assert(s.take(i + 1).last() == s[i]);
        assert(spec_name_value(s.take(i)) <= spec_name_value(s.take(i + 1)));
        lemma_value_prefix_le(s, i + 1);
    } else {
        assert(s.take(i) =~= s);
    }
}

/// A name of lowercase letters has a non-negative value.
proof fn lemma_value_nonneg(s: Seq<char>)
    requires
        spec_name_chars_ok(s),
    ensures
        spec_name_value(s) >= 0,
    decreases s.len(),
{
    if s.len() > 0 {
        assert(spec_name_chars_ok(s.drop_last()));
        lemma_value_nonneg(s.drop_last());
    }
}

/// Every character of a minified name is a lowercase letter.
proof fn lemma_to_string_chars_ok(n: nat)
    ensures
        spec_name_chars_ok(spec_to_string(n)),
        spec_to_string(n).len() >= 1,
    decreases n,
{
    if n < 26 {
        assert(spec_is_lower(spec_letter(n)));
    } else {
        lemma_to_string_chars_ok((n / 26 - 1) as nat);
        assert(spec_is_lower(spec_letter(n % 26)));
    }
}

/// The 1-indexed value of the minified name of `n` is exactly `n + 1`.
proof fn lemma_to_string_value(n: nat)
    ensures
        spec_name_value(spec_to_string(n)) == n + 1,
    decreases n,
{
    if n < 26 {
        assert(spec_name_value(Seq::<char>::empty()) == 0);
        assert(spec_to_string(n).drop_last() =~= Seq::<char>::empty());
        assert(spec_to_string(n).last() as int == 97 + n);
        assert(spec_name_value(spec_to_string(n)) == 0 * 26 + (97 + n - 96));
    } else {
        assert(n / 26 >= 1 && n / 26 - 1 < n) by (nonlinear_arith)
            requires
                n >= 26,
        ;
        let m = (n / 26 - 1) as nat;
        lemma_to_string_value(m);
        let s = spec_to_string(n);
        assert(s.drop_last() =~= spec_to_string(m));
        assert(s.last() as int == 97 + n % 26);
        lemma_fundamental_div_mod(n as int, 26);
        assert(spec_name_value(s) == (m + 1) * 26 + (n % 26 + 1));
    }
}

/// Round-trip law: minifying any field ID and reading the name back yields
/// the same field ID, and no other.
pub proof fn lemma_field_id_round_trip(n: FieldId)
    ensures
        spec_from_string(spec_to_string(n as nat)) == Some(n),
{
    lemma_to_string_chars_ok(n as nat);
    lemma_to_string_value(n as nat);
}

/// Minification never maps two different field IDs to the same name, so no
/// name ever reads back as a different integer than the one that made it.
pub proof fn lemma_to_string_injective(a: FieldId, b: FieldId)
    requires
        spec_to_string(a as nat) == spec_to_string(b as nat),
    ensures
        a == b,
{
    lemma_field_id_round_trip(a);
    lemma_field_id_round_trip(b);
}

/// Reads a minified field name back into its field ID. Fails on an empty
/// name, on any character outside `a..z`, and on a name whose value does not
/// fit in 64 bits.
pub fn from_string(str: &str) -> (r: Option<FieldId>)
    ensures
        r == spec_from_string(str@),
{
    let len: usize = str.unicode_len();
    if len == 0 {
        return None;
    }
    let mut result: u64 = 0;
    let mut i: usize = 0;
    while i < len
        invariant
            len == str@.len(),
            0 < i <= len || (i == 0 && result == 0),
            spec_name_chars_ok(str@.take(i as int)),
            i > 0 ==> result == spec_name_value(str@.take(i as int)) - 1,
        decreases len - i,
    {
        let c: char = str.get_char(i);
        let num: u32 = c as u32;
        if num < 97 || num > 122 {
            // Not a lowercase letter: the name is rejected.
            return None;
        }
        proof {
            assert(str@.take(i + 1).drop_last() =~= str@.take(i as int));
            assert(str@.take(i + 1).last() == str@[i as int]);
            assert(str@[i as int] == c);
            assert(spec_name_value(str@.take(i + 1)) == spec_name_value(str@.take(i as int)) * 26
                + (num - 96));
        }
        if i == 0 {
            proof {
                assert(spec_name_value(str@.take(0)) == 0);
            }
            result = (num - 97) as u64;
        } else {
            // Fold in the next 1-indexed digit while staying 0-indexed:
            // new value - 1 == (old value - 1) * 26 + digit + 25.
            let add: u64 = (num - 97) as u64 + 26;
            if result > (u64::MAX - add) / 26 {
                proof {
                    let ghost v = spec_name_value(str@.take(i + 1));
                    assert(result * 26 + add > u64::MAX) by (nonlinear_arith)
                        requires
                            result > (u64::MAX - add) / 26,
                            add <= u64::MAX,
                    ;
                    if spec_name_chars_ok(str@) {
                        lemma_value_prefix_le(str@, i + 1);
                        assert(spec_name_value(str@) - 1 > u64::MAX);
                    }
                }
                return None;
            }
            proof {
                assert(result * 26 + add <= u64::MAX) by (nonlinear_arith)
                    requires
                        result <= (u64::MAX - add) / 26,
                        add <= u64::MAX,
                ;
            }
            result = result * 26 + add;
        }
        i += 1;
    }
    proof {
        assert(str@.take(len as int) =~= str@);
    }
    Some(result)
}

/// The byte of the letter that stands for digit `num`.
fn to_digit(num: u64) -> (r: u8)
    requires
        num < 26,
    ensures
        r == 97 + num,
        r as char == spec_letter(num as nat),
{
    97 + (num as u8)
}

/// The characters that a sequence of ASCII bytes spells.
pub open spec fn spec_bytes_as_chars(s: Seq<u8>) -> Seq<char> {
    s.map_values(|b: u8| b as char)
}

/// Relies on std's `String::from_utf8`: a vector of bytes below 128 is valid
/// UTF-8 (one byte per character), so the conversion always succeeds and the
/// string's characters are exactly the bytes' code points.
#[verifier::external_body]
fn ascii_to_string(bytes: Vec<u8>) -> (r: String)
    requires
        forall|i: int| 0 <= i < bytes@.len() ==> bytes@[i] < 128,
    ensures
        r@ == spec_bytes_as_chars(bytes@),
{
    String::from_utf8(bytes).unwrap()
}

/// Minifies a field ID into its lowercase-letter name: digits are produced
/// least-significant first, then reversed into reading order.
pub fn to_string(field_id: FieldId) -> (r: String)
    ensures
        r@ == spec_to_string(field_id as nat),
{
    let mut num: u64 = field_id;
    let mut digits: Vec<u8> = Vec::new();

    loop
        invariant_except_break
            spec_to_string(field_id as nat) =~= spec_to_string(num as nat) + spec_bytes_as_chars(
                digits@,
            ).reverse(),
        invariant
            forall|i: int| 0 <= i < digits@.len() ==> 97 <= #[trigger] digits@[i] <= 122,
        ensures
            spec_to_string(field_id as nat) =~= spec_bytes_as_chars(digits@).reverse(),
        decreases num,
    {
        if num < 26 {
            digits.push(to_digit(num));
            proof {
                lemma_reverse_push_letter(digits@, field_id as nat, num as nat);
            }
            break;
        } else {
            proof {
                assert(num / 26 >= 1 && num / 26 - 1 < num) by (nonlinear_arith)
                    requires
                        num >= 26,
                ;
            }
            let d: u64 = num % 26;
            digits.push(to_digit(d));
            proof {
                lemma_reverse_step(digits@, field_id as nat, num as nat);
            }
            num = num / 26 - 1;
        }
    }

    // Reverse into reading order: most significant digit first.
    let mut in_order: Vec<u8> = Vec::new();
    let mut j: usize = digits.len();
    while j > 0
        invariant
            j <= digits@.len(),
            in_order@.len() == digits@.len() - j,
            forall|k: int|
                0 <= k < in_order@.len() ==> in_order@[k] == digits@[digits@.len() - 1 - k],
            forall|i: int| 0 <= i < digits@.len() ==> 97 <= #[trigger] digits@[i] <= 122,
        decreases j,
    {
        j -= 1;
        in_order.push(digits[j]);
    }
    proof {
        assert(in_order@ =~= digits@.reverse());
        assert(spec_bytes_as_chars(digits@.reverse()) =~= spec_bytes_as_chars(digits@).reverse());
    }
    ascii_to_string(in_order)
}

/// Pushing the final digit's letter completes the reversed-digit picture:
/// with `num` below 26, the name of `num` is that single letter.
proof fn lemma_reverse_push_letter(digits: Seq<u8>, orig: nat, num: nat)
    requires
        num < 26,
        digits.len() >= 1,
        digits.last() == 97 + num,
        spec_to_string(orig) =~= spec_to_string(num) + spec_bytes_as_chars(
            digits.drop_last(),
        ).reverse(),
    ensures
        spec_to_string(orig) =~= spec_bytes_as_chars(digits).reverse(),
{
    assert(spec_bytes_as_chars(digits).reverse() =~= seq![spec_letter(num)]
        + spec_bytes_as_chars(digits.drop_last()).reverse());
}

/// Pushing digit `num mod 26` maintains the reversed-digit picture while
/// `num` steps down to `num / 26 - 1`.
proof fn lemma_reverse_step(digits: Seq<u8>, orig: nat, num: nat)
    requires
        num >= 26,
        digits.len() >= 1,
        digits.last() == 97 + num % 26,
        spec_to_string(orig) =~= spec_to_string(num) + spec_bytes_as_chars(
            digits.drop_last(),
        ).reverse(),
    ensures
        spec_to_string(orig) =~= spec_to_string((num / 26 - 1) as nat) + spec_bytes_as_chars(
            digits,
        ).reverse(),
{
    assert(spec_to_string(num) == spec_to_string((num / 26 - 1) as nat).push(
        spec_letter(num % 26),
    ));
    assert(spec_bytes_as_chars(digits).reverse() =~= seq![spec_letter(num % 26)]
        + spec_bytes_as_chars(digits.drop_last()).reverse());
}

} // verus!
