//! Helpers on annotations and image names.

use vstd::prelude::*;
use vstd::string::StrSliceExecFns;
use vstd::string::StringExecFns;

use crate::text::last_index_of;
use crate::text::last_position;
use crate::text::lemma_last_index_of;

verus! {

/// The value that `annotations` holds for `search`: that of the first pair
/// with this key.
pub open spec fn annotation_value(
    annotations: Seq<(Seq<char>, Seq<char>)>,
    search: Seq<char>,
) -> Option<Seq<char>>
    decreases annotations.len(),
{
    if annotations.len() == 0 {
        None
    } else if annotations[0].0 == search {
        Some(annotations[0].1)
    } else {
        annotation_value(annotations.drop_first(), search)
    }
}

/// A value that reads as true: it begins with `t` or `T`.
pub open spec fn is_truthy(value: Seq<char>) -> bool {
    value.len() > 0 && (value[0] == 't' || value[0] == 'T')
}

/// All characters are decimal digits.
pub open spec fn is_digits(s: Seq<char>) -> bool {
    forall|i: int| 0 <= i < s.len() ==> '0' <= #[trigger] s[i] <= '9'
}

/// The number that a string of decimal digits denotes.
pub open spec fn digits_value(s: Seq<char>) -> nat
    decreases s.len(),
{
    if s.len() == 0 {
        0
    } else {
        (digits_value(s.drop_last()) * 10 + (s.last() as nat - 48)) as nat
    }
}

/// The `u32` that a text denotes: an optional `+`, then one or more decimal
/// digits, whose value fits.  Anything else denotes none.
pub open spec fn spec_parse_u32(s: Seq<char>) -> Option<u32> {
    let digits = if s.len() > 0 && s[0] == '+' {
        s.skip(1)
    } else {
        s
    };
    if digits.len() > 0 && is_digits(digits) && digits_value(digits) <= u32::MAX {
        Some(digits_value(digits) as u32)
    } else {
        None
    }
}

/// A longer string of digits denotes no smaller number than its beginning.
pub proof fn lemma_digits_value_monotonic(s: Seq<char>, i: int)
    requires
        is_digits(s),
        0 <= i <= s.len(),
    ensures
        digits_value(s.take(i)) <= digits_value(s),
    decreases s.len() - i,
{
    if i == s.len() {
        assert(s.take(i) =~= s);
    } else {
        lemma_digits_value_monotonic(s, i + 1);
        assert(s.take(i + 1).drop_last() =~= s.take(i));
        assert(s.take(i + 1).last() == s[i]);
    }
}

/// Looks `search` up in `annotations`.
pub fn find_annotation<'a>(annotations: &'a Vec<(String, String)>, search: &str) -> (r: Option<
    &'a String,
>)
    ensures
        match r {
            Some(value) => annotation_value(annotations.deep_view(), search@) == Some(value@),
            None => annotation_value(annotations.deep_view(), search@) is None,
        },
{
    let key = String::from_str(search);
    let mut i: usize = 0;
    assert(annotations.deep_view().skip(0) =~= annotations.deep_view());
    while i < annotations.len()
        invariant
            i <= annotations.len(),
            key@ == search@,
            annotation_value(annotations.deep_view(), search@) == annotation_value(
                annotations.deep_view().skip(i as int),
                search@,
            ),
        decreases annotations.len() - i,
    {
        let ghost rest = annotations.deep_view().skip(i as int);
        assert(rest[0] == annotations.deep_view()[i as int]);
        assert(rest.drop_first() =~= annotations.deep_view().skip(i + 1));
        if annotations[i].0 == key {
            return Some(&annotations[i].1);
        }
        i += 1;
    }
    None
}

/// Whether the annotation `search` is present with a value that begins
/// with `t` or `T`.
pub fn annotation_true(annotations: &Vec<(String, String)>, search: &str) -> (r: bool)
    ensures
        r == match annotation_value(annotations.deep_view(), search@) {
            Some(value) => is_truthy(value),
            None => false,
        },
{
    match find_annotation(annotations, search) {
        Some(value) => {
            let text = value.as_str();
            if text.unicode_len() == 0 {
                false
            } else {
                let first = text.get_char(0);
                first == 't' || first == 'T'
            }
        },
        None => false,
    }
}

/// Reads a decimal `u32`.
pub fn parse_u32(text: &str) -> (r: Option<u32>)
    ensures
        r == spec_parse_u32(text@),
{
    let n = text.unicode_len();
    let start: usize = if n > 0 && text.get_char(0) == '+' {
        1
    } else {
        0
    };
    let ghost digits = text@.skip(start as int);
    assert(text@.skip(0) =~= text@);
    if start == n {
        return None;
    }
    let mut value: u64 = 0;
    let mut i: usize = start;
    assert(digits.take(0) =~= Seq::<char>::empty());
    while i < n
        invariant
            start <= i <= n,
            n == text@.len(),
            digits == text@.skip(start as int),
            digits == if text@.len() > 0 && text@[0] == '+' {
                text@.skip(1)
            } else {
                text@
            },
            is_digits(digits.take(i - start)),
            value == digits_value(digits.take(i - start)),
            value <= u32::MAX,
        decreases n - i,
    {
        let c = text.get_char(i);
        assert(digits[i - start] == c);
        if c < '0' || c > '9' {
            return None;
        }
        let digit: u64 = (c as u32 - '0' as u32) as u64;
        let next: u64 = value * 10 + digit;
        proof {
            let taken = digits.take(i + 1 - start);
            assert(taken.drop_last() =~= digits.take(i - start));
            assert(taken.last() == c);
            assert(next == digits_value(taken));
            assert forall|k: int| 0 <= k < taken.len() implies '0' <= #[trigger] taken[k] <= '9' by {
                if k < taken.len() - 1 {
                    assert(taken[k] == digits.take(i - start)[k]);
                }
            }
        }
        if next > u32::MAX as u64 {
            proof {
                if is_digits(digits) {
                    lemma_digits_value_monotonic(digits, i + 1 - start);
                }
            }
            return None;
        }
        value = next;
        i += 1;
    }
    assert(digits.take(n - start) =~= digits);
    Some(value as u32)
}

/// The annotation `search` as a number, where it is present and is one.
pub fn annotation_maybe_int(annotations: &Vec<(String, String)>, search: &str) -> (r: Option<u32>)
    ensures
        r == match annotation_value(annotations.deep_view(), search@) {
            Some(value) => spec_parse_u32(value),
            None => None,
        },
{
    match find_annotation(annotations, search) {
        Some(value) => parse_u32(value.as_str()),
        None => None,
    }
}

/// `data` with everything after its last `search` replaced by `replace`;
/// where `search` does not occur, `replace` alone.
pub open spec fn spec_replace_last(data: Seq<char>, search: char, replace: Seq<char>) -> Seq<char> {
    data.take(last_index_of(data, search) + 1) + replace
}

/// Replaces what follows the last `search` in `data` by `replace`: the tag
/// of an image name by a new version.  A name without `search` becomes
/// `replace` alone; no name gives no name.
pub fn replace_last(data: Option<String>, search: char, replace: &str) -> (r: Option<String>)
    ensures
        data is None ==> r is None,
        data matches Some(inner) ==> r matches Some(result) && result@ == spec_replace_last(
            inner@,
            search,
            replace@,
        ),
{
    match data {
        None => None,
        Some(inner) => {
            let text = inner.as_str();
            let keep = last_position(text, search);
            proof {
                lemma_last_index_of(text@, search);
            }
            let mut result = String::from_str(text.substring_char(0, keep));
            result.append(replace);
            assert(text@.subrange(0, keep as int) =~= text@.take(keep as int));
            Some(result)
        },
    }
}

} // verus!
