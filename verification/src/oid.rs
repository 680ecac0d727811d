//! Object ids as git writes them: forty hexadecimal digits.

use crate::text::to_chars;
use vstd::prelude::*;
use vstd::utf8::encode_utf8;

verus! {

/// A hexadecimal digit, of either case.
pub open spec fn is_hex(c: char) -> bool {
    ('0' <= c && c <= '9') || ('a' <= c && c <= 'f') || ('A' <= c && c <= 'F')
}

/// The digit in lower case.
pub open spec fn lower_hex(c: char) -> char {
    if c == 'A' {
        'a'
    } else if c == 'B' {
        'b'
    } else if c == 'C' {
        'c'
    } else if c == 'D' {
        'd'
    } else if c == 'E' {
        'e'
    } else if c == 'F' {
        'f'
    } else {
        c
    }
}

/// One to forty hexadecimal digits.
pub open spec fn is_oid_text(s: Seq<char>) -> bool {
    &&& 1 <= s.len() <= 40
    &&& forall|i: int| 0 <= i < s.len() ==> is_hex(#[trigger] s[i])
}

/// The forty digits that a shorter text stands for: the missing ones are zeros at the end.
pub open spec fn full_oid(s: Seq<char>) -> Seq<char> {
    Seq::new(
        40,
        |i: int|
            if i < s.len() {
                lower_hex(s[i])
            } else {
                '0'
            },
    )
}

/// The id that no object has.
pub open spec fn is_zero_oid(s: Seq<char>) -> bool {
    s.len() == 40 && forall|i: int| 0 <= i < 40 ==> #[trigger] s[i] == '0'
}

/// What git says of a text that is no id. The length is that in bytes.
pub open spec fn oid_problem(s: Seq<char>) -> Seq<char> {
    if s.len() == 0 {
        "unable to parse OID - too short; class=Invalid (3)"@
    } else if encode_utf8(s).len() > 40 {
        "unable to parse OID - too long; class=Invalid (3)"@
    } else {
        "unable to parse OID - contains invalid characters; class=Invalid (3)"@
    }
}

/// `git2::Oid::from_str`, the id and the error written out again by their `Display`. It takes one to
/// forty hexadecimal digits of either case and nothing else; digits that are missing at the end
/// count as zeros; an id is written as forty digits in lower case. The error tells an empty text,
/// one of more than forty bytes, and any other apart.
#[verifier::external_body]
pub(crate) fn git_oid_from_str(text: &str) -> (r: Result<String, String>)
    ensures
        match r {
            Ok(s) => is_oid_text(text@) && s@ == full_oid(text@),
            Err(e) => !is_oid_text(text@) && e@ == oid_problem(text@),
        },
{
    match git2::Oid::from_str(text) {
        Ok(oid) => Ok(oid.to_string()),
        Err(e) => Err(e.to_string()),
    }
}

/// The object id that a text stands for.
pub fn parse_oid(text: &str) -> (r: Option<String>)
    ensures
        match r {
            Some(s) => is_oid_text(text@) && s@ == full_oid(text@),
            None => !is_oid_text(text@),
        },
{
    match git_oid_from_str(text) {
        Ok(s) => Some(s),
        Err(_) => None,
    }
}

/// Whether an id is the one that no object has.
pub fn zero_oid(id: &str) -> (r: bool)
    ensures
        r == is_zero_oid(id@),
{
    let v = to_chars(id);
    if v.len() != 40 {
        return false;
    }
    let mut i: usize = 0;
    while i < 40
        invariant
            i <= 40,
            v@.len() == 40,
            v@ == id@,
            forall|k: int| 0 <= k < i ==> v@[k] == '0',
        decreases 40 - i,
    {
        if v[i] != '0' {
            return false;
        }
        i += 1;
    }
    true
}

/// An id that is written out reads back as itself.
pub proof fn law_full_oid_reads_back(s: Seq<char>)
    requires
        is_oid_text(s),
    ensures
        is_oid_text(full_oid(s)),
        full_oid(full_oid(s)) == full_oid(s),
{
    assert forall|i: int| 0 <= i < 40 implies is_hex(#[trigger] full_oid(s)[i]) by {
        if i < s.len() {
            assert(is_hex(s[i]));
        }
    }
    assert(full_oid(full_oid(s)) =~= full_oid(s));
}

/// An id is one to forty hexadecimal digits. Written out it has forty digits in lower case, which are an
/// id again and stay as they are; it begins as the text does.
pub proof fn law_id_is_written_out(s: Seq<char>)
    requires
        is_oid_text(s),
    ensures
        full_oid(s).len() == 40,
        is_oid_text(full_oid(s)),
        full_oid(full_oid(s)) == full_oid(s),
        forall|i: int|
            0 <= i < s.len() && !('A' <= s[i] <= 'F') ==> #[trigger] full_oid(s)[i] == s[i],
        forall|i: int|
            0 <= i < s.len() && 'A' <= s[i] <= 'F' ==> (#[trigger] full_oid(s)[i]) as int
                == s[i] as int + ('a' as int - 'A' as int),
        forall|i: int| s.len() <= i < 40 ==> #[trigger] full_oid(s)[i] == '0',
{
    let f = full_oid(s);
    assert forall|i: int| 0 <= i < f.len() implies is_hex(#[trigger] f[i]) by {
        if i < s.len() {
            assert(is_hex(s[i]));
        }
    }
    assert(full_oid(f) =~= f);
}

/// The digits of an id are the ten decimal ones and the letters from `a` to `f` in either case.
pub proof fn law_hexadecimal_digits(c: char)
    ensures
        is_hex(c) <==> '0' <= c <= '9' || 'a' <= c <= 'f' || 'A' <= c <= 'F',
{
}

} // verus!
