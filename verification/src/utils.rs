//! Small helpers over paths and sizes: formatting a byte count for display,
//! shortening long names, and recognising document files by their extension.

use vstd::prelude::*;
use vstd::string::StrSliceExecFns;
use vstd::string::StringExecFns;

use crate::strutil::ascii_lower;
use crate::strutil::chars_of;
use crate::strutil::dec_str;
use crate::strutil::fixed2_str;
use crate::strutil::push_dec;
use crate::strutil::push_fixed2;
use crate::strutil::rfind;
use crate::strutil::rfind_from;
use crate::strutil::string_from_chars;
use crate::strutil::subvec;
use crate::strutil::to_ascii_lower;

verus! {

pub const KB: u64 = 1024;

pub const MB: u64 = 1024 * 1024;

pub const GB: u64 = 1024 * 1024 * 1024;

/// A byte count for display: two-decimal gigabytes, megabytes or kilobytes
/// for sizes of at least one unit, and a plain count below one kilobyte.
pub open spec fn file_size_str(size: nat) -> Seq<char> {
    if size >= GB {
        fixed2_str(size as int, GB as int) + " GB"@
    } else if size >= MB {
        fixed2_str(size as int, MB as int) + " MB"@
    } else if size >= KB {
        fixed2_str(size as int, KB as int) + " KB"@
    } else {
        dec_str(size) + " bytes"@
    }
}

/// Formats a file size for display.
pub fn format_file_size(size: u64) -> (r: String)
    ensures
        r@ == file_size_str(size as nat),
{
    let mut out: Vec<char> = Vec::new();
    if size >= GB {
        push_fixed2(&mut out, size as u128, GB as u128);
        out.push(' ');
        out.push('G');
        out.push('B');
        proof {
            reveal_strlit(" GB");
            assert(out@ =~= file_size_str(size as nat));
        }
    } else if size >= MB {
        push_fixed2(&mut out, size as u128, MB as u128);
        out.push(' ');
        out.push('M');
        out.push('B');
        proof {
            reveal_strlit(" MB");
            assert(out@ =~= file_size_str(size as nat));
        }
    } else if size >= KB {
        push_fixed2(&mut out, size as u128, KB as u128);
        out.push(' ');
        out.push('K');
        out.push('B');
        proof {
            reveal_strlit(" KB");
            assert(out@ =~= file_size_str(size as nat));
        }
    } else {
        push_dec(&mut out, size as u128);
        out.push(' ');
        out.push('b');
        out.push('y');
        out.push('t');
        out.push('e');
        out.push('s');
        proof {
            reveal_strlit(" bytes");
            assert(out@ =~= file_size_str(size as nat));
        }
    }
    string_from_chars(&out)
}

/// Truncates a string to at most `max_length` characters, marking a cut
/// with a trailing ellipsis.
pub fn truncate_string(s: &str, max_length: usize) -> (r: String)
    requires
        max_length >= 3,
    ensures
        s@.len() <= max_length ==> r@ == s@,
        s@.len() > max_length ==> r@ == s@.subrange(0, max_length - 3) + "..."@,
{
    let n = s.unicode_len();
    if n <= max_length {
        s.to_owned()
    } else {
        let head = s.substring_char(0, max_length - 3);
        head.to_owned().concat("...")
    }
}

/// The extension of the final component of a path: the part after the
/// component's last dot, or empty when the component has no dot or only a
/// leading one.
pub open spec fn extension_of(p: Seq<char>) -> Seq<char> {
    let sl = rfind(p, '/', p.len() - 1);
    let dot = rfind(p, '.', p.len() - 1);
    if dot >= sl + 2 {
        p.subrange(dot + 1, p.len() as int)
    } else {
        Seq::empty()
    }
}

/// Extracts the file extension from a path, lowercased.
pub fn get_file_extension(path: &str) -> (r: String)
    ensures
        r@ == ascii_lower(extension_of(path@)),
{
    let v = chars_of(path);
    if v.len() == 0 {
        proof {
            assert(ascii_lower(extension_of(path@)) =~= Seq::<char>::empty());
        }
        return String::new();
    }
    let sl = rfind_from(&v, '/', v.len() - 1);
    let dot = rfind_from(&v, '.', v.len() - 1);
    let start = match (dot, sl) {
        (Some(d), Some(s)) => if d > s && d - s >= 2 {
            Some(d + 1)
        } else {
            None
        },
        (Some(d), None) => if d >= 1 {
            Some(d + 1)
        } else {
            None
        },
        _ => None,
    };
    match start {
        Some(from) => {
            let ext = subvec(&v, from, v.len());
            let lowered = to_ascii_lower(&ext);
            string_from_chars(&lowered)
        },
        None => {
            proof {
                assert(ascii_lower(extension_of(path@)) =~= Seq::<char>::empty());
            }
            String::new()
        },
    }
}

/// The final component of a path: everything after the last slash, or the
/// whole path when it has none.
pub open spec fn file_name_of(p: Seq<char>) -> Seq<char> {
    p.subrange(rfind(p, '/', p.len() - 1) + 1, p.len() as int)
}

/// The final component of a path.
pub fn file_name(path: &str) -> (r: String)
    ensures
        r@ == file_name_of(path@),
{
    let v = chars_of(path);
    let sub = if v.len() == 0 {
        subvec(&v, 0, 0)
    } else {
        match rfind_from(&v, '/', v.len() - 1) {
            Some(k) => subvec(&v, k + 1, v.len()),
            None => subvec(&v, 0, v.len()),
        }
    };
    string_from_chars(&sub)
}

/// Checks whether a path names a PDF file.
pub fn is_pdf(path: &str) -> (r: bool)
    ensures
        r == (ascii_lower(extension_of(path@)) == "pdf"@),
{
    let e = get_file_extension(path);
    let p = "pdf".to_owned();
    e == p
}

} // verus!
