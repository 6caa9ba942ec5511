//! Byte classification and the fixed element-name sets of the grammar.

use vstd::prelude::*;

verus! {

/// Whitespace recognized during tag and attribute scanning:
/// space, line feed, carriage return, tab and form feed.
pub open spec fn is_ws(b: u8) -> bool {
    b == 32 || b == 10 || b == 13 || b == 9 || b == 12
}

/// Control bytes that the grammar rejects or truncates scans at:
/// the C0 range minus the whitespace bytes above, plus DEL.
pub open spec fn is_ctl(b: u8) -> bool {
    b <= 8 || b == 11 || (14 <= b && b <= 31) || b == 127
}

/// ASCII `0-9A-Za-z`.
pub open spec fn is_alnum(b: u8) -> bool {
    (48 <= b && b <= 57) || (65 <= b && b <= 90) || (97 <= b && b <= 122)
}

/// ASCII lower-casing of a single byte.
pub open spec fn lower(b: u8) -> u8 {
    if 65 <= b && b <= 90 {
        (b + 32) as u8
    } else {
        b
    }
}

/// The whole sequence lower-cased byte by byte.
pub open spec fn lower_all(s: Seq<u8>) -> Seq<u8> {
    Seq::new(s.len(), |i: int| lower(s[i]))
}

/// ASCII case-insensitive equality of byte sequences.
pub open spec fn eq_ci(a: Seq<u8>, b: Seq<u8>) -> bool {
    lower_all(a) == lower_all(b)
}

/// Membership of a tag name in the fixed void-element set: such an element
/// never has children or a closing tag.
pub open spec fn is_void_name(n: Seq<u8>) -> bool {
    ||| eq_ci(n, seq![97, 114, 101, 97])  // area
    ||| eq_ci(n, seq![98, 97, 115, 101])  // base
    ||| eq_ci(n, seq![98, 114])  // br
    ||| eq_ci(n, seq![99, 111, 108])  // col
    ||| eq_ci(n, seq![99, 111, 109, 109, 97, 110, 100])  // command
    ||| eq_ci(n, seq![101, 109, 98, 101, 100])  // embed
    ||| eq_ci(n, seq![104, 114])  // hr
    ||| eq_ci(n, seq![105, 109, 103])  // img
    ||| eq_ci(n, seq![105, 110, 112, 117, 116])  // input
    ||| eq_ci(n, seq![107, 101, 121, 103, 101, 110])  // keygen
    ||| eq_ci(n, seq![108, 105, 110, 107])  // link
    ||| eq_ci(n, seq![109, 101, 116, 97])  // meta
    ||| eq_ci(n, seq![112, 97, 114, 97, 109])  // param
    ||| eq_ci(n, seq![115, 111, 117, 114, 99, 101])  // source
    ||| eq_ci(n, seq![116, 114, 97, 99, 107])  // track
    ||| eq_ci(n, seq![119, 98, 114])  // wbr
}

/// Membership of a tag name in the fixed foreign-element set: the body of
/// such an element is captured verbatim, never parsed as markup.
pub open spec fn is_foreign_name(n: Seq<u8>) -> bool {
    ||| eq_ci(n, seq![115, 99, 114, 105, 112, 116])  // script
    ||| eq_ci(n, seq![115, 116, 121, 108, 101])  // style
    ||| eq_ci(n, seq![116, 105, 116, 108, 101])  // title
    ||| eq_ci(n, seq![116, 101, 120, 116, 97, 114, 101, 97])  // textarea
    ||| eq_ci(n, seq![115, 118, 103])  // svg
    ||| eq_ci(n, seq![109, 97, 116, 104])  // math
}

pub fn byte_is_ws(b: u8) -> (r: bool)
    ensures
        r == is_ws(b),
{
    b == 32 || b == 10 || b == 13 || b == 9 || b == 12
}

pub fn byte_is_ctl(b: u8) -> (r: bool)
    ensures
        r == is_ctl(b),
{
    b <= 8 || b == 11 || (14 <= b && b <= 31) || b == 127
}

pub fn byte_is_alnum(b: u8) -> (r: bool)
    ensures
        r == is_alnum(b),
{
    (48 <= b && b <= 57) || (65 <= b && b <= 90) || (97 <= b && b <= 122)
}

pub fn byte_lower(b: u8) -> (r: u8)
    ensures
        r == lower(b),
{
    if 65 <= b && b <= 90 {
        b + 32
    } else {
        b
    }
}

/// Exact comparison of two byte slices.
pub fn bytes_eq(a: &[u8], b: &[u8]) -> (r: bool)
    ensures
        r == (a@ == b@),
{
    if a.len() != b.len() {
        return false;
    }
    let n = a.len();
    let mut i: usize = 0;
    while i < n
        invariant
            n == a@.len() == b@.len(),
            i <= n,
            forall|j: int| 0 <= j < i ==> a@[j] == b@[j],
        decreases n - i,
    {
        if a[i] != b[i] {
            return false;
        }
        i += 1;
    }
    assert(a@ =~= b@);
    true
}

/// Case-insensitive comparison of two byte slices.
pub fn bytes_eq_ci(a: &[u8], b: &[u8]) -> (r: bool)
    ensures
        r == eq_ci(a@, b@),
{
    if a.len() != b.len() {
        assert(lower_all(a@).len() != lower_all(b@).len());
        return false;
    }
    let n = a.len();
    let mut i: usize = 0;
    while i < n
        invariant
            n == a@.len() == b@.len(),
            i <= n,
            forall|j: int| 0 <= j < i ==> lower(a@[j]) == lower(b@[j]),
        decreases n - i,
    {
        if byte_lower(a[i]) != byte_lower(b[i]) {
            assert(lower_all(a@)[i as int] != lower_all(b@)[i as int]);
            return false;
        }
        i += 1;
    }
    assert(lower_all(a@) =~= lower_all(b@));
    true
}

/// Case-insensitive comparison of a scanned name with a two-byte name.
fn ci2(n: &[u8], b0: u8, b1: u8) -> (r: bool)
    ensures
        r == eq_ci(n@, seq![b0, b1]),
{
    let v: [u8; 2] = [b0, b1];
    bytes_eq_ci(n, v.as_slice())
}

/// Case-insensitive comparison of a scanned name with a three-byte name.
fn ci3(n: &[u8], b0: u8, b1: u8, b2: u8) -> (r: bool)
    ensures
        r == eq_ci(n@, seq![b0, b1, b2]),
{
    let v: [u8; 3] = [b0, b1, b2];
    bytes_eq_ci(n, v.as_slice())
}

/// Case-insensitive comparison of a scanned name with a four-byte name.
fn ci4(n: &[u8], b0: u8, b1: u8, b2: u8, b3: u8) -> (r: bool)
    ensures
        r == eq_ci(n@, seq![b0, b1, b2, b3]),
{
    let v: [u8; 4] = [b0, b1, b2, b3];
    bytes_eq_ci(n, v.as_slice())
}

/// Case-insensitive comparison of a scanned name with a five-byte name.
fn ci5(n: &[u8], b0: u8, b1: u8, b2: u8, b3: u8, b4: u8) -> (r: bool)
    ensures
        r == eq_ci(n@, seq![b0, b1, b2, b3, b4]),
{
    let v: [u8; 5] = [b0, b1, b2, b3, b4];
    bytes_eq_ci(n, v.as_slice())
}

/// Case-insensitive comparison of a scanned name with a six-byte name.
fn ci6(n: &[u8], b0: u8, b1: u8, b2: u8, b3: u8, b4: u8, b5: u8) -> (r: bool)
    ensures
        r == eq_ci(n@, seq![b0, b1, b2, b3, b4, b5]),
{
    let v: [u8; 6] = [b0, b1, b2, b3, b4, b5];
    bytes_eq_ci(n, v.as_slice())
}

/// Case-insensitive comparison of a scanned name with a seven-byte name.
fn ci7(n: &[u8], b0: u8, b1: u8, b2: u8, b3: u8, b4: u8, b5: u8, b6: u8) -> (r: bool)
    ensures
        r == eq_ci(n@, seq![b0, b1, b2, b3, b4, b5, b6]),
{
    let v: [u8; 7] = [b0, b1, b2, b3, b4, b5, b6];
    bytes_eq_ci(n, v.as_slice())
}

/// Case-insensitive comparison of a scanned name with an eight-byte name.
fn ci8(n: &[u8], b0: u8, b1: u8, b2: u8, b3: u8, b4: u8, b5: u8, b6: u8, b7: u8) -> (r: bool)
    ensures
        r == eq_ci(n@, seq![b0, b1, b2, b3, b4, b5, b6, b7]),
{
    let v: [u8; 8] = [b0, b1, b2, b3, b4, b5, b6, b7];
    bytes_eq_ci(n, v.as_slice())
}

/// Void-element membership test on the scanned tag name.
pub fn name_is_void(n: &[u8]) -> (r: bool)
    ensures
        r == is_void_name(n@),
{
    ci4(n, 97, 114, 101, 97) || ci4(n, 98, 97, 115, 101) || ci2(n, 98, 114) || ci3(
        n,
        99,
        111,
        108,
    ) || ci7(n, 99, 111, 109, 109, 97, 110, 100) || ci5(n, 101, 109, 98, 101, 100)
        || ci2(n, 104, 114) || ci3(n, 105, 109, 103) || ci5(n, 105, 110, 112, 117, 116)
        || ci6(n, 107, 101, 121, 103, 101, 110) || ci4(n, 108, 105, 110, 107) || ci4(
        n,
        109,
        101,
        116,
        97,
    ) || ci5(n, 112, 97, 114, 97, 109) || ci6(n, 115, 111, 117, 114, 99, 101) || ci5(
        n,
        116,
        114,
        97,
        99,
        107,
    ) || ci3(n, 119, 98, 114)
}

/// Foreign-element membership test on the scanned tag name.
pub fn name_is_foreign(n: &[u8]) -> (r: bool)
    ensures
        r == is_foreign_name(n@),
{
    ci6(n, 115, 99, 114, 105, 112, 116) || ci5(n, 115, 116, 121, 108, 101) || ci5(
        n,
        116,
        105,
        116,
        108,
        101,
    ) || ci8(n, 116, 101, 120, 116, 97, 114, 101, 97) || ci3(n, 115, 118, 103) || ci4(
        n,
        109,
        97,
        116,
        104,
    )
}

} // verus!
