//! Character-level string utilities shared by the chunker, the retrieval
//! store and the response parser.
//!
//! Everything here works on `Seq<char>` views; byte lengths (which the
//! size budgets are measured in) are obtained through
//! [`vstd::utf8::encode_utf8`].

use vstd::prelude::*;
use vstd::string::*;

verus! {

/// Byte length of a string given by its character view: the number
/// `str::len` returns for a string with these characters.
pub open spec fn byte_len(s: Seq<char>) -> int {
    (vstd::utf8::encode_utf8(s).len() as usize) as int
}

/// The Unicode `White_Space` code points, the set `char::is_whitespace`
/// and `str::trim` go by.
pub open spec fn is_space_char(c: char) -> bool {
    let u = c as u32;
    u == 9 || u == 10 || u == 11 || u == 12 || u == 13 || u == 32
        || u == 0x85 || u == 0xA0 || u == 0x1680
        || (0x2000 <= u && u <= 0x200A)
        || u == 0x2028 || u == 0x2029 || u == 0x202F || u == 0x205F
        || u == 0x3000
}

/// Whether every character of `s` is whitespace; the meaning of
/// `s.trim().is_empty()`.
pub open spec fn is_blank(s: Seq<char>) -> bool {
    forall|i: int| 0 <= i < s.len() ==> is_space_char(#[trigger] s[i])
}

pub fn is_space(c: char) -> (r: bool)
    ensures
        r == is_space_char(c),
{
    let u = c as u32;
    u == 9 || u == 10 || u == 11 || u == 12 || u == 13 || u == 32
        || u == 0x85 || u == 0xA0 || u == 0x1680
        || (0x2000 <= u && u <= 0x200A)
        || u == 0x2028 || u == 0x2029 || u == 0x202F || u == 0x205F
        || u == 0x3000
}

/// Whether `s` consists of whitespace only (in particular, whether it is
/// empty after trimming).
pub fn all_space(s: &str) -> (r: bool)
    ensures
        r == is_blank(s@),
{
    let n = s.unicode_len();
    let mut i: usize = 0;
    while i < n
        invariant
            0 <= i <= n,
            n == s@.len(),
            forall|j: int| 0 <= j < i ==> is_space_char(#[trigger] s@[j]),
        decreases n - i,
    {
        let c = s.get_char(i);
        if !is_space(c) {
            return false;
        }
        i += 1;
    }
    true
}

/// Character-for-character string equality.
pub fn str_eq(a: &str, b: &str) -> (r: bool)
    ensures
        r == (a@ == b@),
{
    let na = a.unicode_len();
    let nb = b.unicode_len();
    if na != nb {
        proof {
            assert(a@ != b@) by {
                if a@ == b@ {
                    assert(a@.len() == b@.len());
                }
            }
        }
        return false;
    }
    let mut i: usize = 0;
    while i < na
        invariant
            0 <= i <= na,
            na == a@.len(),
            na == b@.len(),
            forall|j: int| 0 <= j < i ==> a@[j] == b@[j],
        decreases na - i,
    {
        if a.get_char(i) != b.get_char(i) {
            return false;
        }
        i += 1;
    }
    proof {
        assert(a@ =~= b@);
    }
    true
}

/// `p` occurs in `s` starting at position `i`.
pub open spec fn occurs_at(s: Seq<char>, p: Seq<char>, i: int) -> bool {
    0 <= i && i + p.len() <= s.len() && s.subrange(i, i + p.len() as int) == p
}

/// `p` is a contiguous substring of `s`; the meaning of `str::contains`.
pub open spec fn contains_seq(s: Seq<char>, p: Seq<char>) -> bool {
    exists|i: int| occurs_at(s, p, i)
}

/// `p` is a prefix of `s`.
pub open spec fn has_prefix(s: Seq<char>, p: Seq<char>) -> bool {
    occurs_at(s, p, 0)
}

fn matches_at(s: &str, n: usize, p: &str, m: usize, i: usize) -> (r: bool)
    requires
        n == s@.len(),
        m == p@.len(),
        i + m <= n,
    ensures
        r == occurs_at(s@, p@, i as int),
{
    let mut j: usize = 0;
    while j < m
        invariant
            0 <= j <= m,
            n == s@.len(),
            m == p@.len(),
            i + m <= n,
            forall|k: int| 0 <= k < j ==> s@[i + k] == #[trigger] p@[k],
        decreases m - j,
    {
        if s.get_char(i + j) != p.get_char(j) {
            proof {
                assert(s@.subrange(i as int, i + p@.len()) != p@) by {
                    if s@.subrange(i as int, i + p@.len()) == p@ {
                        assert(s@.subrange(i as int, i + p@.len())[j as int] == p@[j as int]);
                    }
                }
            }
            return false;
        }
        j += 1;
    }
    proof {
        assert(s@.subrange(i as int, i + p@.len()) =~= p@);
    }
    true
}

/// Whether `p` occurs anywhere in `s`; the meaning of `str::contains`.
pub fn contains_str(s: &str, p: &str) -> (r: bool)
    ensures
        r == contains_seq(s@, p@),
{
    let n = s.unicode_len();
    let m = p.unicode_len();
    if m > n {
        return false;
    }
    if m == 0 {
        proof {
            assert(s@.subrange(0, 0) =~= p@);
            assert(occurs_at(s@, p@, 0));
        }
        return true;
    }
    let mut i: usize = 0;
    while i <= n - m
        invariant
            0 <= i <= n - m + 1,
            1 <= m <= n,
            n == s@.len(),
            m == p@.len(),
            forall|k: int| 0 <= k < i ==> !occurs_at(s@, p@, k),
        decreases n - i,
    {
        if matches_at(s, n, p, m, i) {
            return true;
        }
        i += 1;
    }
    proof {
        assert(forall|k: int| occurs_at(s@, p@, k) ==> 0 <= k <= n - m);
    }
    false
}

/// Whether `p` is a prefix of `s`; the meaning of `str::starts_with`.
pub fn starts_with_str(s: &str, p: &str) -> (r: bool)
    ensures
        r == has_prefix(s@, p@),
{
    let n = s.unicode_len();
    let m = p.unicode_len();
    if m > n {
        return false;
    }
    matches_at(s, n, p, m, 0)
}

/// Index of the first occurrence of `c` in `s`, if any; the meaning of
/// `str::find` with a character pattern.
pub fn find_char(s: &str, c: char) -> (r: Option<usize>)
    ensures
        match r {
            Some(i) => i < s@.len() && s@[i as int] == c
                && forall|j: int| 0 <= j < i ==> s@[j] != c,
            None => forall|j: int| 0 <= j < s@.len() ==> s@[j] != c,
        },
{
    let n = s.unicode_len();
    let mut i: usize = 0;
    while i < n
        invariant
            0 <= i <= n,
            n == s@.len(),
            forall|j: int| 0 <= j < i ==> s@[j] != c,
        decreases n - i,
    {
        if s.get_char(i) == c {
            return Some(i);
        }
        i += 1;
    }
    None
}

/// Index of the last occurrence of `c` in `s`, if any; the meaning of
/// `str::rfind` with a character pattern.
pub fn rfind_char(s: &str, c: char) -> (r: Option<usize>)
    ensures
        match r {
            Some(i) => i < s@.len() && s@[i as int] == c
                && forall|j: int| i < j < s@.len() ==> s@[j] != c,
            None => forall|j: int| 0 <= j < s@.len() ==> s@[j] != c,
        },
{
    let n = s.unicode_len();
    let mut i: usize = n;
    while i > 0
        invariant
            0 <= i <= n,
            n == s@.len(),
            forall|j: int| i <= j < n ==> s@[j] != c,
        decreases i,
    {
        i -= 1;
        if s.get_char(i) == c {
            return Some(i);
        }
    }
    None
}

/// The Unicode lowercase mapping that `str::to_lowercase` applies; it
/// depends on the characters alone.
pub uninterp spec fn lower_of(s: Seq<char>) -> Seq<char>;

/// Relies on `str::to_lowercase`: the lowercase equivalent of the string,
/// a function of its characters alone.
#[verifier::external_body]
pub fn to_lowercase_str(s: &str) -> (r: String)
    ensures
        r@ == lower_of(s@),
{
    s.to_lowercase()
}

/// The character views of a sequence of strings.
pub open spec fn str_views(v: Seq<String>) -> Seq<Seq<char>> {
    v.map_values(|x: String| x@)
}

/// Whitespace-delimited tokens of `s`, scanning left to right with the
/// token collected so far in `cur`; the meaning of `str::split_whitespace`.
pub open spec fn split_ws_acc(s: Seq<char>, cur: Seq<char>) -> Seq<Seq<char>>
    decreases s.len(),
{
    if s.len() == 0 {
        if cur.len() == 0 {
            Seq::empty()
        } else {
            seq![cur]
        }
    } else if is_space_char(s[0]) {
        if cur.len() == 0 {
            split_ws_acc(s.drop_first(), Seq::empty())
        } else {
            seq![cur] + split_ws_acc(s.drop_first(), Seq::empty())
        }
    } else {
        split_ws_acc(s.drop_first(), cur.push(s[0]))
    }
}

/// Whitespace-delimited tokens of `s`.
pub open spec fn split_ws(s: Seq<char>) -> Seq<Seq<char>> {
    split_ws_acc(s, Seq::empty())
}

/// The pieces of `s` between occurrences of the two-newline paragraph
/// separator, scanning left to right; the meaning of `str::split("\n\n")`.
/// Empty pieces are kept, and there is always at least one piece.
pub open spec fn split_para_acc(s: Seq<char>, cur: Seq<char>) -> Seq<Seq<char>>
    decreases s.len(),
{
    if s.len() < 2 {
        seq![cur + s]
    } else if s[0] == '\n' && s[1] == '\n' {
        seq![cur] + split_para_acc(s.skip(2), Seq::empty())
    } else {
        split_para_acc(s.drop_first(), cur.push(s[0]))
    }
}

/// The paragraphs of `s`: its pieces between blank-line separators.
pub open spec fn split_para(s: Seq<char>) -> Seq<Seq<char>> {
    split_para_acc(s, Seq::empty())
}

/// Drops one carriage return at the end of a line body, as `str::lines`
/// does for lines terminated by a newline.
pub open spec fn strip_cr(s: Seq<char>) -> Seq<char> {
    if s.len() > 0 && s.last() == '\r' {
        s.drop_last()
    } else {
        s
    }
}

/// The lines of `s`, scanning left to right; the meaning of `str::lines`:
/// split at `\n`, dropping a `\r` just before each `\n`, with the final
/// line ending optional (an unterminated last line keeps a trailing `\r`).
pub open spec fn lines_acc(s: Seq<char>, cur: Seq<char>) -> Seq<Seq<char>>
    decreases s.len(),
{
    if s.len() == 0 {
        if cur.len() == 0 {
            Seq::empty()
        } else {
            seq![cur]
        }
    } else if s[0] == '\n' {
        seq![strip_cr(cur)] + lines_acc(s.drop_first(), Seq::empty())
    } else {
        lines_acc(s.drop_first(), cur.push(s[0]))
    }
}

/// The lines of `s`.
pub open spec fn split_lines(s: Seq<char>) -> Seq<Seq<char>> {
    lines_acc(s, Seq::empty())
}

/// Splits `s` into its whitespace-delimited tokens.
pub fn split_whitespace_vec(s: &str) -> (r: Vec<String>)
    ensures
        str_views(r@) == split_ws(s@),
{
    let n = s.unicode_len();
    let mut out: Vec<String> = Vec::new();
    let mut i: usize = 0;
    let mut tok: usize = 0;
    proof {
        assert(s@.skip(0) =~= s@);
        assert(s@.subrange(0, 0) =~= Seq::<char>::empty());
        assert(str_views(out@) + split_ws_acc(s@.skip(0), s@.subrange(0, 0)) =~= split_ws(s@));
    }
    while i < n
        invariant
            tok <= i <= n,
            n == s@.len(),
            forall|j: int| tok <= j < i ==> !is_space_char(#[trigger] s@[j]),
            split_ws(s@) == str_views(out@) + split_ws_acc(
                s@.skip(i as int),
                s@.subrange(tok as int, i as int),
            ),
        decreases n - i,
    {
        let ghost rest = s@.skip(i as int);
        let ghost cur = s@.subrange(tok as int, i as int);
        proof {
            assert(rest[0] == s@[i as int]);
            assert(rest.drop_first() =~= s@.skip(i + 1));
        }
        let c = s.get_char(i);
        if is_space(c) {
            if i > tok {
                let piece = s.substring_char(tok, i);
                out.push(piece.to_owned());
                proof {
                    assert(str_views(out@) =~= str_views(out@.drop_last()) + seq![cur]);
                    assert(str_views(out@.drop_last()) + (seq![cur] + split_ws_acc(
                        s@.skip(i + 1),
                        Seq::empty(),
                    )) =~= str_views(out@) + split_ws_acc(s@.skip(i + 1), Seq::empty()));
                }
            }
            i += 1;
            tok = i;
            proof {
                assert(s@.subrange(tok as int, i as int) =~= Seq::<char>::empty());
            }
        } else {
            i += 1;
            proof {
                assert(cur.push(s@[i - 1]) =~= s@.subrange(tok as int, i as int));
            }
        }
    }
    proof {
        assert(s@.skip(n as int) =~= Seq::<char>::empty());
    }
    if i > tok {
        let piece = s.substring_char(tok, i);
        out.push(piece.to_owned());
        proof {
            assert(str_views(out@) =~= str_views(out@.drop_last()) + seq![
                s@.subrange(tok as int, i as int),
            ]);
            assert(str_views(out@.drop_last()) + seq![s@.subrange(tok as int, i as int)]
                =~= split_ws(s@));
        }
    } else {
        proof {
            assert(split_ws(s@) =~= str_views(out@));
        }
    }
    out
}

/// Splits `s` at blank-line paragraph separators, keeping empty pieces.
pub fn split_paragraphs(s: &str) -> (r: Vec<String>)
    ensures
        str_views(r@) == split_para(s@),
{
    let n = s.unicode_len();
    let mut out: Vec<String> = Vec::new();
    let mut i: usize = 0;
    let mut tok: usize = 0;
    proof {
        assert(s@.skip(0) =~= s@);
        assert(s@.subrange(0, 0) =~= Seq::<char>::empty());
        assert(str_views(out@) + split_para_acc(s@.skip(0), s@.subrange(0, 0)) =~= split_para(
            s@,
        ));
    }
    while i < n
        invariant
            tok <= i <= n,
            n == s@.len(),
            split_para(s@) == str_views(out@) + split_para_acc(
                s@.skip(i as int),
                s@.subrange(tok as int, i as int),
            ),
        decreases n - i,
    {
        let ghost rest = s@.skip(i as int);
        let ghost cur = s@.subrange(tok as int, i as int);
        proof {
            assert(rest.len() == n - i);
            if rest.len() >= 1 {
                assert(rest[0] == s@[i as int]);
            }
            if rest.len() >= 2 {
                assert(rest[1] == s@[i + 1]);
            }
        }
        if i + 1 < n && s.get_char(i) == '\n' && s.get_char(i + 1) == '\n' {
            let piece = s.substring_char(tok, i);
            out.push(piece.to_owned());
            proof {
                assert(rest.skip(2) =~= s@.skip(i + 2));
                assert(str_views(out@) =~= str_views(out@.drop_last()) + seq![cur]);
                assert(str_views(out@.drop_last()) + (seq![cur] + split_para_acc(
                    s@.skip(i + 2),
                    Seq::empty(),
                )) =~= str_views(out@) + split_para_acc(s@.skip(i + 2), Seq::empty()));
            }
            i += 2;
            tok = i;
            proof {
                assert(s@.subrange(tok as int, i as int) =~= Seq::<char>::empty());
            }
        } else {
            proof {
                if rest.len() >= 2 {
                    assert(rest.drop_first() =~= s@.skip(i + 1));
                    assert(cur.push(s@[i as int]) =~= s@.subrange(tok as int, i + 1));
                } else {
                    // one character left: it completes the final piece
                    assert(cur + rest =~= s@.subrange(tok as int, i + 1));
                    assert(s@.skip(i + 1) =~= Seq::<char>::empty());
                    assert((s@.subrange(tok as int, i + 1) + s@.skip(i + 1)) =~= s@.subrange(
                        tok as int,
                        i + 1,
                    ));
                }
            }
            i += 1;
        }
    }
    let ghost rest = s@.skip(i as int);
    proof {
        assert(rest =~= Seq::<char>::empty());
        assert(s@.subrange(tok as int, i as int) + rest =~= s@.subrange(tok as int, i as int));
    }
    let piece = s.substring_char(tok, i);
    out.push(piece.to_owned());
    proof {
        assert(str_views(out@) =~= str_views(out@.drop_last()) + seq![
            s@.subrange(tok as int, i as int),
        ]);
        assert(str_views(out@.drop_last()) + seq![s@.subrange(tok as int, i as int)] =~= split_para(
            s@,
        ));
    }
    out
}

/// Number of leading whitespace characters of `s`.
pub open spec fn lead_spaces(s: Seq<char>) -> int
    decreases s.len(),
{
    if s.len() == 0 {
        0
    } else if is_space_char(s[0]) {
        1 + lead_spaces(s.drop_first())
    } else {
        0
    }
}

/// Number of trailing whitespace characters of `s`.
pub open spec fn trail_spaces(s: Seq<char>) -> int
    decreases s.len(),
{
    if s.len() == 0 {
        0
    } else if is_space_char(s.last()) {
        1 + trail_spaces(s.drop_last())
    } else {
        0
    }
}

/// `s` with leading and trailing whitespace removed; the meaning of
/// `str::trim`.
pub open spec fn trim_spec(s: Seq<char>) -> Seq<char> {
    if is_blank(s) {
        Seq::empty()
    } else {
        s.subrange(lead_spaces(s), s.len() - trail_spaces(s))
    }
}

proof fn lemma_lead_spaces(s: Seq<char>)
    ensures
        0 <= lead_spaces(s) <= s.len(),
        forall|j: int| 0 <= j < lead_spaces(s) ==> is_space_char(#[trigger] s[j]),
        lead_spaces(s) < s.len() ==> !is_space_char(s[lead_spaces(s)]),
    decreases s.len(),
{
    if s.len() > 0 && is_space_char(s[0]) {
        lemma_lead_spaces(s.drop_first());
        assert forall|j: int| 1 <= j < lead_spaces(s) implies is_space_char(#[trigger] s[j]) by {
            assert(is_space_char(s.drop_first()[j - 1]));
            assert(s.drop_first()[j - 1] == s[j]);
        }
        if lead_spaces(s) < s.len() {
            assert(s[lead_spaces(s)] == s.drop_first()[lead_spaces(s.drop_first())]);
        }
    }
}

proof fn lemma_trail_spaces(s: Seq<char>)
    ensures
        0 <= trail_spaces(s) <= s.len(),
        forall|j: int| s.len() - trail_spaces(s) <= j < s.len() ==> is_space_char(
            #[trigger] s[j],
        ),
        trail_spaces(s) < s.len() ==> !is_space_char(s[s.len() - trail_spaces(s) - 1]),
    decreases s.len(),
{
    if s.len() > 0 && is_space_char(s.last()) {
        lemma_trail_spaces(s.drop_last());
        assert(forall|j: int| 0 <= j < s.len() - 1 ==> #[trigger] s[j] == s.drop_last()[j]);
    }
}

/// Removes leading and trailing whitespace, as `str::trim` does.
pub fn trim_str<'a>(s: &'a str) -> (r: &'a str)
    ensures
        r@ == trim_spec(s@),
{
    let n = s.unicode_len();
    let mut a: usize = 0;
    while a < n && is_space(s.get_char(a))
        invariant
            0 <= a <= n,
            n == s@.len(),
            forall|j: int| 0 <= j < a ==> is_space_char(#[trigger] s@[j]),
        decreases n - a,
    {
        a += 1;
    }
    if a == n {
        proof {
            assert(is_blank(s@));
            assert(s@.subrange(n as int, n as int) =~= Seq::<char>::empty());
        }
        return s.substring_char(n, n);
    }
    let mut b: usize = n;
    while b > a && is_space(s.get_char(b - 1))
        invariant
            a <= b <= n,
            n == s@.len(),
            forall|j: int| b <= j < n ==> is_space_char(#[trigger] s@[j]),
        decreases b,
    {
        b -= 1;
    }
    proof {
        assert(!is_space_char(s@[a as int]));
        assert(!is_blank(s@));
        lemma_lead_spaces(s@);
        lemma_trail_spaces(s@);
        // `a` is exactly the number of leading spaces
        assert(a as int == lead_spaces(s@)) by {
            if (a as int) < lead_spaces(s@) {
                assert(is_space_char(s@[a as int]));
            }
            if lead_spaces(s@) < a as int {
                assert(is_space_char(s@[lead_spaces(s@)]));
            }
        }
        // and `n - b` the number of trailing ones
        assert(!is_space_char(s@[b - 1]));
        assert(n - b == trail_spaces(s@)) by {
            if n - (b as int) < trail_spaces(s@) {
                assert(is_space_char(s@[b - 1]));
            }
            if trail_spaces(s@) < n - (b as int) {
                assert(is_space_char(s@[s@.len() - trail_spaces(s@) - 1]));
            }
        }
    }
    s.substring_char(a, b)
}

/// The decimal digit character for `d`.
pub open spec fn dec_digit(d: int) -> char {
    if d == 0 {
        '0'
    } else if d == 1 {
        '1'
    } else if d == 2 {
        '2'
    } else if d == 3 {
        '3'
    } else if d == 4 {
        '4'
    } else if d == 5 {
        '5'
    } else if d == 6 {
        '6'
    } else if d == 7 {
        '7'
    } else if d == 8 {
        '8'
    } else {
        '9'
    }
}

/// The decimal digit string of a nonnegative number, most significant
/// digit first.
pub open spec fn dec_str(n: int) -> Seq<char>
    recommends
        n >= 0,
    decreases n,
{
    if n < 10 {
        seq![dec_digit(n)]
    } else {
        dec_str(n / 10).push(dec_digit(n % 10))
    }
}

pub(crate) fn digit_str(d: u8) -> (r: &'static str)
    requires
        d < 10,
    ensures
        r@ == seq![dec_digit(d as int)],
{
    let r = if d == 0 {
        "0"
    } else if d == 1 {
        "1"
    } else if d == 2 {
        "2"
    } else if d == 3 {
        "3"
    } else if d == 4 {
        "4"
    } else if d == 5 {
        "5"
    } else if d == 6 {
        "6"
    } else if d == 7 {
        "7"
    } else if d == 8 {
        "8"
    } else {
        "9"
    };
    proof {
        reveal_strlit("0");
        reveal_strlit("1");
        reveal_strlit("2");
        reveal_strlit("3");
        reveal_strlit("4");
        reveal_strlit("5");
        reveal_strlit("6");
        reveal_strlit("7");
        reveal_strlit("8");
        reveal_strlit("9");
        assert(r@ =~= seq![dec_digit(d as int)]);
    }
    r
}

fn push_dec(out: &mut String, n: u64)
    ensures
        final(out)@ == old(out)@ + dec_str(n as int),
    decreases n,
{
    if n >= 10 {
        push_dec(out, n / 10);
    }
    let d = (n % 10) as u8;
    out.append(digit_str(d));
    proof {
        if n >= 10 {
            assert(old(out)@ + dec_str((n / 10) as int) + seq![dec_digit((n % 10) as int)]
                =~= old(out)@ + dec_str(n as int));
        } else {
            assert(old(out)@ + seq![dec_digit(n as int)] =~= old(out)@ + dec_str(n as int));
        }
    }
}

/// The decimal rendering of `n`, as `format!("{}", n)` produces it.
pub fn u32_to_dec(n: u32) -> (r: String)
    ensures
        r@ == dec_str(n as int),
{
    let mut out = String::new();
    push_dec(&mut out, n as u64);
    proof {
        assert(Seq::<char>::empty() + dec_str(n as int) =~= dec_str(n as int));
    }
    out
}

/// The decimal rendering of `n`, as `format!("{}", n)` produces it.
pub fn u64_to_dec(n: u64) -> (r: String)
    ensures
        r@ == dec_str(n as int),
{
    let mut out = String::new();
    push_dec(&mut out, n);
    proof {
        assert(Seq::<char>::empty() + dec_str(n as int) =~= dec_str(n as int));
    }
    out
}

/// The decimal rendering of `n`, as `format!("{}", n)` produces it.
pub fn usize_to_dec(n: usize) -> (r: String)
    ensures
        r@ == dec_str(n as int),
{
    let mut out = String::new();
    push_dec(&mut out, n as u64);
    proof {
        assert(Seq::<char>::empty() + dec_str(n as int) =~= dec_str(n as int));
    }
    out
}

/// Copies of the given strings.
pub fn clone_strings(v: &Vec<String>) -> (r: Vec<String>)
    ensures
        r@ =~= v@,
{
    let n = v.len();
    let mut out: Vec<String> = Vec::new();
    let mut i: usize = 0;
    while i < n
        invariant
            0 <= i <= n,
            n == v@.len(),
            out@.len() == i,
            forall|j: int| 0 <= j < i ==> #[trigger] out@[j] == v@[j],
        decreases n - i,
    {
        out.push(v[i].clone());
        i += 1;
    }
    proof {
        assert(out@ =~= v@);
    }
    out
}

/// Index of the first occurrence of `c` in `s`.
pub open spec fn first_idx(s: Seq<char>, c: char) -> Option<int>
    decreases s.len(),
{
    if s.len() == 0 {
        None
    } else if s[0] == c {
        Some(0)
    } else {
        match first_idx(s.drop_first(), c) {
            None => None,
            Some(i) => Some(i + 1),
        }
    }
}

/// Index of the last occurrence of `c` in `s`.
pub open spec fn last_idx(s: Seq<char>, c: char) -> Option<int>
    decreases s.len(),
{
    if s.len() == 0 {
        None
    } else if s.last() == c {
        Some(s.len() - 1)
    } else {
        last_idx(s.drop_last(), c)
    }
}


pub proof fn lemma_first_idx(s: Seq<char>, c: char, i: int)
    requires
        0 <= i < s.len(),
        s[i] == c,
        forall|j: int| 0 <= j < i ==> s[j] != c,
    ensures
        first_idx(s, c) == Some(i),
    decreases i,
{
    if i > 0 {
        let rest = s.drop_first();
        assert(forall|j: int| 0 <= j < i - 1 ==> #[trigger] rest[j] == s[j + 1]);
        lemma_first_idx(rest, c, i - 1);
    }
}

pub proof fn lemma_first_idx_none(s: Seq<char>, c: char)
    requires
        forall|j: int| 0 <= j < s.len() ==> s[j] != c,
    ensures
        first_idx(s, c) is None,
    decreases s.len(),
{
    if s.len() > 0 {
        let rest = s.drop_first();
        assert(forall|j: int| 0 <= j < rest.len() ==> #[trigger] rest[j] == s[j + 1]);
        lemma_first_idx_none(rest, c);
    }
}

pub proof fn lemma_last_idx(s: Seq<char>, c: char, i: int)
    requires
        0 <= i < s.len(),
        s[i] == c,
        forall|j: int| i < j < s.len() ==> s[j] != c,
    ensures
        last_idx(s, c) == Some(i),
    decreases s.len(),
{
    if i < s.len() - 1 {
        let rest = s.drop_last();
        assert(forall|j: int| 0 <= j < rest.len() ==> #[trigger] rest[j] == s[j]);
        lemma_last_idx(rest, c, i);
    }
}

pub proof fn lemma_last_idx_none(s: Seq<char>, c: char)
    requires
        forall|j: int| 0 <= j < s.len() ==> s[j] != c,
    ensures
        last_idx(s, c) is None,
    decreases s.len(),
{
    if s.len() > 0 {
        let rest = s.drop_last();
        assert(forall|j: int| 0 <= j < rest.len() ==> #[trigger] rest[j] == s[j]);
        lemma_last_idx_none(rest, c);
    }
}


/// Splits `s` into its lines, as `str::lines` does.
pub fn split_lines_vec(s: &str) -> (r: Vec<String>)
    ensures
        str_views(r@) == split_lines(s@),
{
    let n = s.unicode_len();
    let mut out: Vec<String> = Vec::new();
    let mut i: usize = 0;
    let mut tok: usize = 0;
    proof {
        assert(s@.skip(0) =~= s@);
        assert(s@.subrange(0, 0) =~= Seq::<char>::empty());
        assert(str_views(out@) + lines_acc(s@.skip(0), s@.subrange(0, 0)) =~= split_lines(s@));
    }
    while i < n
        invariant
            tok <= i <= n,
            n == s@.len(),
            split_lines(s@) == str_views(out@) + lines_acc(
                s@.skip(i as int),
                s@.subrange(tok as int, i as int),
            ),
        decreases n - i,
    {
        let ghost rest = s@.skip(i as int);
        let ghost cur = s@.subrange(tok as int, i as int);
        proof {
            assert(rest[0] == s@[i as int]);
            assert(rest.drop_first() =~= s@.skip(i + 1));
        }
        if s.get_char(i) == '\n' {
            let body_end = if i > tok && s.get_char(i - 1) == '\r' {
                i - 1
            } else {
                i
            };
            proof {
                if i > tok && s@[i - 1] == '\r' {
                    assert(cur.last() == s@[i - 1]);
                    assert(strip_cr(cur) =~= s@.subrange(tok as int, i - 1));
                } else {
                    if cur.len() > 0 {
                        assert(cur.last() == s@[i - 1]);
                    }
                    assert(strip_cr(cur) =~= cur);
                }
            }
            let piece = s.substring_char(tok, body_end);
            out.push(piece.to_owned());
            proof {
                assert(str_views(out@) =~= str_views(out@.drop_last()) + seq![strip_cr(cur)]);
                assert(str_views(out@.drop_last()) + (seq![strip_cr(cur)] + lines_acc(
                    s@.skip(i + 1),
                    Seq::empty(),
                )) =~= str_views(out@) + lines_acc(s@.skip(i + 1), Seq::empty()));
            }
            i += 1;
            tok = i;
            proof {
                assert(s@.subrange(tok as int, i as int) =~= Seq::<char>::empty());
            }
        } else {
            i += 1;
            proof {
                assert(cur.push(s@[i - 1]) =~= s@.subrange(tok as int, i as int));
            }
        }
    }
    proof {
        assert(s@.skip(n as int) =~= Seq::<char>::empty());
    }
    if i > tok {
        let piece = s.substring_char(tok, i);
        out.push(piece.to_owned());
        proof {
            assert(str_views(out@) =~= str_views(out@.drop_last()) + seq![
                s@.subrange(tok as int, i as int),
            ]);
            assert(str_views(out@.drop_last()) + seq![s@.subrange(tok as int, i as int)]
                =~= split_lines(s@));
        }
    } else {
        proof {
            assert(split_lines(s@) =~= str_views(out@));
        }
    }
    out
}

} // verus!
