//! Form decoder: `application/x-www-form-urlencoded` bodies, field lookup
//! and field validation.

use vstd::prelude::*;

verus! {

/// What `form_urlencoded::parse` yields for a body: the percent-decoded
/// (name, value) pairs, in order, a function of the body bytes alone.
pub uninterp spec fn form_decoded(bytes: Seq<u8>) -> Seq<(Seq<char>, Seq<char>)>;

/// The views of a vector of decoded pairs.
pub open spec fn pair_views(pairs: Seq<(String, String)>) -> Seq<(Seq<char>, Seq<char>)> {
    Seq::new(pairs.len(), |i: int| (pairs[i].0@, pairs[i].1@))
}

/// Relies on form_urlencoded::parse: the decoded (name, value) pairs depend
/// on the body bytes alone, and an empty body yields no pair.
#[verifier::external_body]
pub fn decode_form(body: &[u8]) -> (r: Vec<(String, String)>)
    ensures
        pair_views(r@) == form_decoded(body@),
        body@.len() == 0 ==> r@.len() == 0,
{
    form_urlencoded::parse(body).into_owned().collect()
}

/// The value of the first pair whose name is `key`, if any; later pairs of
/// the same name are shadowed.
pub open spec fn spec_first_value(pairs: Seq<(Seq<char>, Seq<char>)>, key: Seq<char>) -> Option<
    Seq<char>,
>
    decreases pairs.len(),
{
    if pairs.len() == 0 {
        None
    } else if pairs[0].0 == key {
        Some(pairs[0].1)
    } else {
        spec_first_value(pairs.drop_first(), key)
    }
}

proof fn lemma_first_value_none(pairs: Seq<(Seq<char>, Seq<char>)>, key: Seq<char>)
    requires
        forall|k: int| 0 <= k < pairs.len() ==> pairs[k].0 != key,
    ensures
        spec_first_value(pairs, key) is None,
    decreases pairs.len(),
{
    if pairs.len() > 0 {
        assert forall|k: int| 0 <= k < pairs.drop_first().len() implies pairs.drop_first()[k].0
            != key by {
            assert(pairs.drop_first()[k] == pairs[k + 1]);
        }
        lemma_first_value_none(pairs.drop_first(), key);
    }
}

proof fn lemma_first_value_at(pairs: Seq<(Seq<char>, Seq<char>)>, key: Seq<char>, j: int)
    requires
        0 <= j < pairs.len(),
        pairs[j].0 == key,
        forall|k: int| 0 <= k < j ==> pairs[k].0 != key,
    ensures
        spec_first_value(pairs, key) == Some(pairs[j].1),
    decreases j,
{
    if j > 0 {
        assert forall|k: int| 0 <= k < j - 1 implies pairs.drop_first()[k].0 != key by {
            assert(pairs.drop_first()[k] == pairs[k + 1]);
        }
        assert(pairs.drop_first()[j - 1] == pairs[j]);
        lemma_first_value_at(pairs.drop_first(), key, j - 1);
    }
}

/// Hands back the value of the first pair named `key`, if any.
pub fn first_value(pairs: &Vec<(String, String)>, key: &str) -> (r: Option<String>)
    ensures
        match r {
            Some(v) => spec_first_value(pair_views(pairs@), key@) == Some(v@),
            None => spec_first_value(pair_views(pairs@), key@) is None,
        },
{
    let key_owned: String = key.to_owned();
    let ghost pv = pair_views(pairs@);
    let n = pairs.len();
    let mut i: usize = 0;
    while i < n
        invariant
            i <= n,
            n == pairs@.len(),
            pv == pair_views(pairs@),
            key_owned@ == key@,
            forall|k: int| 0 <= k < i ==> pv[k].0 != key@,
        decreases n - i,
    {
        if pairs[i].0 == key_owned {
            proof {
                assert(pv[i as int] == (pairs@[i as int].0@, pairs@[i as int].1@));
                lemma_first_value_at(pv, key@, i as int);
            }
            return Some(pairs[i].1.clone());
        }
        proof {
            assert(pv[i as int] == (pairs@[i as int].0@, pairs@[i as int].1@));
        }
        i = i + 1;
    }
    proof {
        lemma_first_value_none(pv, key@);
    }
    None
}

/// Whether `c` has Unicode's White_Space property: the characters that
/// trimming a string removes from its ends.
pub open spec fn is_space_char(c: char) -> bool {
    (9 <= c as u32 && c as u32 <= 13) || c as u32 == 32 || c as u32 == 0x85 || c as u32 == 0xA0
        || c as u32 == 0x1680 || (0x2000 <= c as u32 && c as u32 <= 0x200A) || c as u32 == 0x2028
        || c as u32 == 0x2029 || c as u32 == 0x202F || c as u32 == 0x205F || c as u32 == 0x3000
}

/// Whether `s` is whitespace throughout, i.e. empty or empty once trimmed.
pub open spec fn spec_blank(s: Seq<char>) -> bool {
    forall|i: int| 0 <= i < s.len() ==> is_space_char(s[i])
}

/// Whether a field value is blank: absent characters or whitespace only.
pub fn is_blank(s: &String) -> (r: bool)
    ensures
        r == spec_blank(s@),
{
    let st: &str = s.as_str();
    let n = st.unicode_len();
    let mut i: usize = 0;
    while i < n
        invariant
            i <= n,
            n == st@.len(),
            st@ == s@,
            forall|k: int| 0 <= k < i ==> is_space_char(s@[k]),
        decreases n - i,
    {
        let c = st.get_char(i);
        let u = c as u32;
        if !((9 <= u && u <= 13) || u == 32 || u == 0x85 || u == 0xA0 || u == 0x1680 || (0x2000
            <= u && u <= 0x200A) || u == 0x2028 || u == 0x2029 || u == 0x202F || u == 0x205F || u
            == 0x3000) {
            return false;
        }
        i = i + 1;
    }
    true
}

/// Whether `c` is an ASCII decimal digit.
pub open spec fn is_digit(c: char) -> bool {
    48 <= c as u32 && c as u32 <= 57
}

/// Whether every character of `s` is a decimal digit.
pub open spec fn all_digits(s: Seq<char>) -> bool {
    forall|i: int| 0 <= i < s.len() ==> is_digit(s[i])
}

/// The value of a digit string, most significant digit first.
pub open spec fn digits_val(s: Seq<char>) -> int
    decreases s.len(),
{
    if s.len() == 0 {
        0
    } else {
        digits_val(s.drop_last()) * 10 + (s.last() as u32 - 48)
    }
}

/// What an id field denotes: an optional minus sign followed by at least
/// one decimal digit, rejected when anything else appears or the value
/// falls outside the 64-bit signed range.
pub open spec fn spec_parse_i64(s: Seq<char>) -> Option<int> {
    let neg = s.len() > 0 && s[0] == '-';
    let digs = if neg {
        s.drop_first()
    } else {
        s
    };
    if digs.len() > 0 && all_digits(digs) {
        let v = if neg {
            -digits_val(digs)
        } else {
            digits_val(digs)
        };
        if i64::MIN <= v <= i64::MAX {
            Some(v)
        } else {
            None
        }
    } else {
        None
    }
}

proof fn lemma_digits_val_nonneg(s: Seq<char>)
    requires
        all_digits(s),
    ensures
        digits_val(s) >= 0,
    decreases s.len(),
{
    if s.len() > 0 {
        assert forall|i: int| 0 <= i < s.drop_last().len() implies is_digit(s.drop_last()[i]) by {
            assert(s.drop_last()[i] == s[i]);
        }
        lemma_digits_val_nonneg(s.drop_last());
    }
}

/// A digit string is worth at least any of its prefixes.
proof fn lemma_digits_val_prefix(s: Seq<char>, k: int)
    requires
        all_digits(s),
        0 <= k <= s.len(),
    ensures
        digits_val(s.take(k)) <= digits_val(s),
    decreases s.len() - k,
{
    if k == s.len() {
        assert(s.take(k) =~= s);
    } else {
        lemma_digits_val_prefix(s, k + 1);
        let t = s.take(k + 1);
        assert(t.drop_last() =~= s.take(k));
        assert(digits_val(t) == digits_val(s.take(k)) * 10 + (t.last() as u32 - 48));
        assert forall|i: int| 0 <= i < s.take(k).len() implies is_digit(s.take(k)[i]) by {
            assert(s.take(k)[i] == s[i]);
        }
        lemma_digits_val_nonneg(s.take(k));
        assert(is_digit(t.last()));
    }
}

/// Parses an id field. The string is accepted exactly when it is an
/// optional minus sign followed by one or more decimal digits whose value
/// fits a 64-bit signed integer.
pub fn parse_id(s: &str) -> (r: Option<i64>)
    ensures
        match r {
            Some(v) => spec_parse_i64(s@) == Some(v as int),
            None => spec_parse_i64(s@) is None,
        },
{
    let n = s.unicode_len();
    let neg = n > 0 && s.get_char(0) == '-';
    let start: usize = if neg {
        1
    } else {
        0
    };
    let ghost digs = if neg {
        s@.drop_first()
    } else {
        s@
    };
    proof {
        assert(digs.len() == n - start);
    }
    if start == n {
        return None;
    }
    let mut mag: u64 = 0;
    let mut i: usize = start;
    while i < n
        invariant
            start <= i <= n,
            n == s@.len(),
            neg == (s@.len() > 0 && s@[0] == '-'),
            start == if neg { 1int } else { 0int },
            start < n,
            digs == if neg { s@.drop_first() } else { s@ },
            digs.len() == n - start,
            all_digits(digs.take(i - start)),
            mag == digits_val(digs.take(i - start)),
        decreases n - i,
    {
        let c = s.get_char(i);
        let u = c as u32;
        proof {
            assert(digs[i - start] == s@[i as int]);
        }
        if !(48 <= u && u <= 57) {
            proof {
                assert(!is_digit(digs[i - start]));
                assert(!all_digits(digs));
            }
            return None;
        }
        let d = (u - 48) as u64;
        let ghost k = i - start;
        proof {
            assert(digs.take(k + 1).drop_last() =~= digs.take(k));
            assert(digs.take(k + 1).last() == digs[k]);
            assert(digits_val(digs.take(k + 1)) == digits_val(digs.take(k)) * 10 + d);
            assert forall|j: int| 0 <= j < digs.take(k + 1).len() implies #[trigger] is_digit(
                digs.take(k + 1)[j],
            ) by {
                assert(digs.take(k + 1)[j] == digs[j]);
            }
        }
        let stepped = match mag.checked_mul(10) {
            Some(m) => m.checked_add(d),
            None => None,
        };
        match stepped {
            Some(m) => {
                mag = m;
            },
            None => {
                // The value read so far already exceeds the unsigned 64-bit
                // range, so the full string cannot fit a signed one.
                proof {
                    assert(digits_val(digs.take(k + 1)) > u64::MAX);
                    if all_digits(digs) {
                        lemma_digits_val_prefix(digs, k + 1);
                        assert(digits_val(digs) > u64::MAX);
                    }
                }
                return None;
            },
        }
        i = i + 1;
    }
    proof {
        assert(digs.take(n - start) =~= digs);
    }
    if !neg {
        if mag <= 0x7fff_ffff_ffff_ffff {
            Some(mag as i64)
        } else {
            None
        }
    } else {
        if mag <= 0x7fff_ffff_ffff_ffff {
            Some(-(mag as i64))
        } else if mag == 0x8000_0000_0000_0000 {
            Some(i64::MIN)
        } else {
            None
        }
    }
}

} // verus!
