//! Display names of PLC variables: the NUL-padded name field, trimmed and
//! decoded as UTF-8 with replacement of invalid sequences.
use vstd::prelude::*;
use vstd::utf8::{valid_utf8, decode_utf8};
use crate::vars::PlcVarMeta;

verus! {

/// What `String::from_utf8_lossy` makes of the given bytes.
pub uninterp spec fn lossy_utf8(bytes: Seq<u8>) -> Seq<char>;

/// `s` without its leading zero bytes.
pub open spec fn strip_leading_nul(s: Seq<u8>) -> Seq<u8>
    decreases s.len(),
{
    if s.len() > 0 && s[0] == 0 {
        strip_leading_nul(s.drop_first())
    } else {
        s
    }
}

/// `s` without its trailing zero bytes.
pub open spec fn strip_trailing_nul(s: Seq<u8>) -> Seq<u8>
    decreases s.len(),
{
    if s.len() > 0 && s.last() == 0 {
        strip_trailing_nul(s.drop_last())
    } else {
        s
    }
}

/// The display name of a variable: its name field without zero bytes at
/// either end, decoded leniently as UTF-8.
pub open spec fn var_name(meta: PlcVarMeta) -> Seq<char> {
    lossy_utf8(strip_trailing_nul(strip_leading_nul(meta.name@)))
}

/// Calls `String::from_utf8_lossy`, which decodes the bytes as UTF-8 and puts
/// U+FFFD in place of each invalid sequence; bytes that are valid UTF-8 decode
/// to exactly the characters they encode.
#[verifier::external_body]
fn string_from_utf8_lossy(bytes: &[u8]) -> (s: String)
    ensures
        s@ == lossy_utf8(bytes@),
        valid_utf8(bytes@) ==> s@ == decode_utf8(bytes@),
{
    String::from_utf8_lossy(bytes).into_owned()
}

/// The non-NUL core of a name field: the bytes between its leading and trailing zeros.
pub fn trim_nul_bytes(name: &[u8; 32]) -> (t: Vec<u8>)
    ensures
        t@ == strip_trailing_nul(strip_leading_nul(name@)),
{
    let ghost s = name@;
    let mut start: usize = 0;
    assert(s.subrange(0, 32) =~= s);
    while start < 32 && name[start] == 0
        invariant
            0 <= start <= 32,
            s.len() == 32,
            s == name@,
            strip_leading_nul(s) == strip_leading_nul(s.subrange(start as int, 32)),
        decreases 32 - start,
    {
        assert(s.subrange(start as int, 32).drop_first() =~= s.subrange(start + 1, 32));
        start = start + 1;
    }
    let ghost u = s.subrange(start as int, 32);
    assert(strip_leading_nul(s) == u);
    let mut end: usize = 32;
    while end > start && name[end - 1] == 0
        invariant
            start <= end <= 32,
            s == name@,
            u == s.subrange(start as int, 32),
            strip_trailing_nul(u) == strip_trailing_nul(s.subrange(start as int, end as int)),
        decreases end - start,
    {
        assert(s.subrange(start as int, end as int).drop_last() =~= s.subrange(start as int, end - 1));
        end = end - 1;
    }
    let mut t: Vec<u8> = Vec::new();
    let mut i: usize = start;
    while i < end
        invariant
            start <= i <= end <= 32,
            s == name@,
            t@ =~= s.subrange(start as int, i as int),
        decreases end - i,
    {
        t.push(name[i]);
        i = i + 1;
    }
    t
}

/// The display name of a variable: its name field with the NUL padding
/// removed from both ends, decoded as UTF-8 (invalid sequences replaced).
pub fn meta_name(meta: &PlcVarMeta) -> (n: String)
    ensures
        n@ == var_name(*meta),
        valid_utf8(strip_trailing_nul(strip_leading_nul(meta.name@))) ==> n@ == decode_utf8(
            strip_trailing_nul(strip_leading_nul(meta.name@)),
        ),
{
    let t = trim_nul_bytes(&meta.name);
    string_from_utf8_lossy(t.as_slice())
}

} // verus!
