//! Reading a migration's identity from its file name.

use vstd::prelude::*;

use crate::text::{chars_of, rfind_in, rfind_index, slice};

verus! {

/// `c` is an ASCII decimal digit.
pub open spec fn is_digit(c: char) -> bool {
    '0' <= c <= '9'
}

/// The value of a decimal digit.
pub open spec fn digit(c: char) -> int {
    c as int - '0' as int
}

/// The number that the first three characters of a file name spell, read as
/// `u32::from_str` reads them: three digits, or `+` and two digits. A name
/// shorter than three characters, or one whose first three characters are not
/// of that form, has none.
pub open spec fn prefix_number(s: Seq<char>) -> Option<u32> {
    if s.len() < 3 {
        None
    } else if is_digit(s[0]) && is_digit(s[1]) && is_digit(s[2]) {
        Some((100 * digit(s[0]) + 10 * digit(s[1]) + digit(s[2])) as u32)
    } else if s[0] == '+' && is_digit(s[1]) && is_digit(s[2]) {
        Some((10 * digit(s[1]) + digit(s[2])) as u32)
    } else {
        None
    }
}

/// The file name without its extension: up to its last `.`, if it has one.
pub open spec fn id_of(s: Seq<char>) -> Seq<char> {
    match rfind_index(s, '.') {
        Some(k) => s.take(k),
        None => s,
    }
}

/// The numeric prefix of a migration file name (`001-init.sh` gives 1).
pub fn extract_prefix(filename: &str) -> (r: Option<u32>)
    ensures
        r == prefix_number(filename@),
{
    let n = filename.unicode_len();
    if n < 3 {
        return None;
    }
    let c0 = filename.get_char(0);
    let c1 = filename.get_char(1);
    let c2 = filename.get_char(2);
    if !('0' <= c1 && c1 <= '9' && '0' <= c2 && c2 <= '9') {
        return None;
    }
    let d1 = (c1 as u32) - ('0' as u32);
    let d2 = (c2 as u32) - ('0' as u32);
    if '0' <= c0 && c0 <= '9' {
        let d0 = (c0 as u32) - ('0' as u32);
        Some(100 * d0 + 10 * d1 + d2)
    } else if c0 == '+' {
        Some(10 * d1 + d2)
    } else {
        None
    }
}

/// The migration id of a file name: the name without its extension
/// (`001-init.sh` gives `001-init`).
pub fn extract_id(filename: &str) -> (r: String)
    ensures
        r@ == id_of(filename@),
{
    let v = chars_of(filename);
    match rfind_in(&v, '.') {
        Some(k) => {
            proof {
                crate::text::lemma_rfind_index(v@, '.');
            }
            slice(filename, 0, k)
        },
        None => filename.to_owned(),
    }
}

} // verus!
