//! Data carried by the file manager, and small helpers on file names
//! and sizes.

use vstd::prelude::*;
use vstd::string::*;
use crate::text::{
    dec_str, dec_digit, lemma_last_idx, lemma_last_idx_none, last_idx, lower_of, rfind_char,
    str_eq, to_lowercase_str, u32_to_dec, u64_to_dec,
};

verus! {

/// A managed document.
#[derive(Debug)]
pub struct FileInfo {
    pub id: String,
    pub name: String,
    pub display_name: String,
    pub file_type: String,
    pub path: String,
    pub size: u64,
    pub created_at: String,
    pub total_pages: u32,
}

/// One page of a document, rendered for display: an image (base64), or
/// plain text, or Markdown.
#[derive(Debug)]
pub struct PageContent {
    pub page_number: u32,
    pub content_type: String,
    pub content: String,
    pub width: u32,
    pub height: u32,
}

/// The file extensions the manager accepts.
pub open spec fn valid_extension(e: Seq<char>) -> bool {
    ||| e == "pdf"@
    ||| e == "doc"@
    ||| e == "docx"@
    ||| e == "ppt"@
    ||| e == "pptx"@
    ||| e == "txt"@
}

/// The extension of a file name: the part of its last path component
/// after the last dot, unless the component has no dot or only a
/// leading one (a hidden file).
pub open spec fn extension_of(name: Seq<char>) -> Option<Seq<char>> {
    let start = match last_idx(name, '/') {
        Some(i) => i + 1,
        None => 0,
    };
    let comp = name.skip(start);
    match last_idx(comp, '.') {
        None => None,
        Some(j) => if j == 0 {
            None
        } else {
            Some(comp.skip(j + 1))
        },
    }
}

/// Whether the file name carries one of the accepted extensions,
/// compared case-insensitively.
pub fn is_valid_extension(filename: &str) -> (r: bool)
    ensures
        r == match extension_of(filename@) {
            Some(e) => valid_extension(lower_of(e)),
            None => false,
        },
{
    let n = filename.unicode_len();
    let sep = rfind_char(filename, '/');
    proof {
        match sep {
            Some(i) => lemma_last_idx(filename@, '/', i as int),
            None => lemma_last_idx_none(filename@, '/'),
        }
    }
    let start = match sep {
        Some(i) => i + 1,
        None => 0,
    };
    let comp = filename.substring_char(start, n);
    let dot = rfind_char(comp, '.');
    proof {
        match dot {
            Some(i) => lemma_last_idx(comp@, '.', i as int),
            None => lemma_last_idx_none(comp@, '.'),
        }
    }
    match dot {
        None => false,
        Some(0) => false,
        Some(j) => {
            let cn = comp.unicode_len();
            let ext = comp.substring_char(j + 1, cn);
            proof {
                assert(ext@ =~= comp@.skip(j + 1));
            }
            let low = to_lowercase_str(ext);
            let le = low.as_str();
            str_eq(le, "pdf") || str_eq(le, "doc") || str_eq(le, "docx") || str_eq(le, "ppt")
                || str_eq(le, "pptx") || str_eq(le, "txt")
        },
    }
}

/// A size ratio in hundredths, the remainder rounded to the nearest
/// (ties to even).
pub open spec fn hundredths_of(size: int, unit: int) -> int
    recommends
        unit > 0,
{
    let scaled = size * 100;
    let q = scaled / unit;
    let r = scaled % unit;
    if 2 * r > unit || (2 * r == unit && q % 2 == 1) {
        q + 1
    } else {
        q
    }
}

/// A ratio rendered with two decimals and a unit suffix.
pub open spec fn sized_str(size: int, unit: int, suffix: Seq<char>) -> Seq<char> {
    let h = hundredths_of(size, unit);
    dec_str(h / 100) + "."@ + seq![dec_digit((h / 10) % 10), dec_digit(h % 10)] + suffix
}

/// What `format_file_size` renders: bytes below a kibibyte, otherwise
/// the largest binary unit reached, with two decimals.
pub open spec fn file_size_str(size: int) -> Seq<char> {
    if size >= 0x40000000 {
        sized_str(size, 0x40000000, " GB"@)
    } else if size >= 0x100000 {
        sized_str(size, 0x100000, " MB"@)
    } else if size >= 0x400 {
        sized_str(size, 0x400, " KB"@)
    } else {
        dec_str(size) + " B"@
    }
}

fn render_sized(size: u64, unit: u64, suffix: &str) -> (r: String)
    requires
        0 < unit <= 0x40000000,
        size >= unit,
    ensures
        r@ == sized_str(size as int, unit as int, suffix@),
{
    let scaled = (size as u128) * 100;
    let unit128 = unit as u128;
    let q = scaled / unit128;
    let rem = scaled % unit128;
    let rounded: u128 = if 2 * rem > unit128 || (2 * rem == unit128 && q % 2 == 1) {
        q + 1
    } else {
        q
    };
    proof {
        assert(scaled / unit128 <= scaled) by (nonlinear_arith)
            requires
                unit128 >= 1,
                scaled >= 0,
        ;
        assert(rounded == hundredths_of(size as int, unit as int));
        assert(rounded / 100 <= rounded);
    }
    let whole = (rounded / 100) as u64;
    let cents = (rounded % 100) as u64;
    let mut out = u64_to_dec(whole);
    out.append(".");
    let d1 = ((cents / 10) % 10) as u8;
    let d2 = (cents % 10) as u8;
    out.append(crate::text::digit_str(d1));
    out.append(crate::text::digit_str(d2));
    out.append(suffix);
    proof {
        assert((rounded % 100) / 10 == (rounded / 10) % 10) by (nonlinear_arith)
            requires
                rounded >= 0,
        ;
        assert(out@ =~= sized_str(size as int, unit as int, suffix@));
    }
    out
}

/// Renders a byte count for display: `B` below a kibibyte, else `KB`,
/// `MB` or `GB` with two decimals, rounded to the nearest (ties to
/// even).
pub fn format_file_size(size: u64) -> (r: String)
    ensures
        r@ == file_size_str(size as int),
{
    if size >= 0x40000000 {
        render_sized(size, 0x40000000, " GB")
    } else if size >= 0x100000 {
        render_sized(size, 0x100000, " MB")
    } else if size >= 0x400 {
        render_sized(size, 0x400, " KB")
    } else {
        let mut out = u64_to_dec(size);
        out.append(" B");
        proof {
            assert(out@ =~= file_size_str(size as int));
        }
        out
    }
}

/// What `truncate_string` returns: the string itself when it fits,
/// otherwise its first `max_len - 3` characters with an ellipsis.
pub open spec fn truncated_str(s: Seq<char>, max_len: int) -> Seq<char> {
    if s.len() <= max_len {
        s
    } else {
        s.take(max_len - 3) + "..."@
    }
}

/// Cuts a string down to `max_len` characters, ending a cut string with
/// an ellipsis.  A budget under three characters is meaningful only for
/// a string that already fits it, since a cut string must carry the
/// three-character ellipsis.
pub fn truncate_string(s: &str, max_len: usize) -> (r: String)
    requires
        max_len >= 3 || s@.len() <= max_len,
    ensures
        r@ == truncated_str(s@, max_len as int),
{
    let n = s.unicode_len();
    if n <= max_len {
        s.to_owned()
    } else {
        let mut out = s.substring_char(0, max_len - 3).to_owned();
        out.append("...");
        proof {
            assert(out@ =~= truncated_str(s@, max_len as int));
        }
        out
    }
}

} // verus!
