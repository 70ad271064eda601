//! Line parsing: one raw input line becomes a command keyword and an
//! argument. The line is first stripped of its trailing line ending, then
//! split at the first space; both parts are trimmed of surrounding blanks.

use vstd::prelude::*;

verus! {

/// One parsed input line: the command keyword and its argument.
pub struct Input {
    pub command: String,
    pub arg: String,
}

/// The blank characters that trimming removes: exactly the characters with
/// the Unicode White_Space property, as `char::is_whitespace` accepts them.
pub open spec fn is_blank(c: char) -> bool {
    ||| c == ' '
    ||| c == '\t'
    ||| c == '\n'
    ||| c == '\u{000B}'
    ||| c == '\u{000C}'
    ||| c == '\r'
    ||| c == '\u{0085}'
    ||| c == '\u{00A0}'
    ||| c == '\u{1680}'
    ||| c == '\u{2000}'
    ||| c == '\u{2001}'
    ||| c == '\u{2002}'
    ||| c == '\u{2003}'
    ||| c == '\u{2004}'
    ||| c == '\u{2005}'
    ||| c == '\u{2006}'
    ||| c == '\u{2007}'
    ||| c == '\u{2008}'
    ||| c == '\u{2009}'
    ||| c == '\u{200A}'
    ||| c == '\u{2028}'
    ||| c == '\u{2029}'
    ||| c == '\u{202F}'
    ||| c == '\u{205F}'
    ||| c == '\u{3000}'
}

/// The sequence without its leading blanks.
pub open spec fn trim_front(s: Seq<char>) -> Seq<char>
    decreases s.len(),
{
    if s.len() > 0 && is_blank(s[0]) {
        trim_front(s.drop_first())
    } else {
        s
    }
}

/// The sequence without its trailing blanks.
pub open spec fn trim_back(s: Seq<char>) -> Seq<char>
    decreases s.len(),
{
    if s.len() > 0 && is_blank(s[s.len() - 1]) {
        trim_back(s.drop_last())
    } else {
        s
    }
}

/// The sequence without its leading and trailing blanks.
pub open spec fn trimmed(s: Seq<char>) -> Seq<char> {
    trim_back(trim_front(s))
}

/// The line without its trailing line ending: a final `'\n'` is dropped,
/// then a final `'\r'`.
pub open spec fn chomp(s: Seq<char>) -> Seq<char> {
    let a = if s.len() > 0 && s[s.len() - 1] == '\n' {
        s.drop_last()
    } else {
        s
    };
    if a.len() > 0 && a[a.len() - 1] == '\r' {
        a.drop_last()
    } else {
        a
    }
}

/// The position of the first space, or the length when there is none.
pub open spec fn space_idx(s: Seq<char>) -> int
    decreases s.len(),
{
    if s.len() == 0 {
        0
    } else if s[0] == ' ' {
        0
    } else {
        1 + space_idx(s.drop_first())
    }
}

/// The command keyword of a raw line: the chomped line up to the first
/// space, trimmed; the whole chomped line when there is no space.
pub open spec fn spec_command(line: Seq<char>) -> Seq<char> {
    let s = chomp(line);
    if space_idx(s) == s.len() {
        s
    } else {
        trimmed(s.subrange(0, space_idx(s)))
    }
}

/// The argument of a raw line: the chomped line from the first space on,
/// trimmed; empty when there is no space.
pub open spec fn spec_arg(line: Seq<char>) -> Seq<char> {
    let s = chomp(line);
    if space_idx(s) == s.len() {
        Seq::empty()
    } else {
        trimmed(s.subrange(space_idx(s), s.len() as int))
    }
}

/// Whether two string slices hold the same characters.
pub fn str_eq(a: &str, b: &str) -> (r: bool)
    ensures
        r == (a@ == b@),
{
    let n = a.unicode_len();
    let m = b.unicode_len();
    if n != m {
        return false;
    }
    let mut i: usize = 0;
    while i < n
        invariant
            i <= n,
            n == a@.len(),
            n == b@.len(),
            forall|k: int| 0 <= k < i ==> a@[k] == b@[k],
        decreases n - i,
    {
        if a.get_char(i) != b.get_char(i) {
            return false;
        }
        i = i + 1;
    }
    proof {
        assert(a@ =~= b@);
    }
    true
}

/// Whether trimming removes this character.
fn is_blank_char(c: char) -> (r: bool)
    ensures
        r == is_blank(c),
{
    c == ' ' || c == '\t' || c == '\n' || c == '\u{000B}' || c == '\u{000C}' || c == '\r'
        || c == '\u{0085}' || c == '\u{00A0}' || c == '\u{1680}' || c == '\u{2000}'
        || c == '\u{2001}' || c == '\u{2002}' || c == '\u{2003}' || c == '\u{2004}'
        || c == '\u{2005}' || c == '\u{2006}' || c == '\u{2007}' || c == '\u{2008}'
        || c == '\u{2009}' || c == '\u{200A}' || c == '\u{2028}' || c == '\u{2029}'
        || c == '\u{202F}' || c == '\u{205F}' || c == '\u{3000}'
}

/// The position right after the leading blanks.
fn scan_front(s: &str) -> (lo: usize)
    ensures
        lo <= s@.len(),
        forall|k: int| 0 <= k < lo ==> is_blank(#[trigger] s@[k]),
        lo < s@.len() ==> !is_blank(s@[lo as int]),
{
    let n = s.unicode_len();
    let mut i: usize = 0;
    while i < n
        invariant
            i <= n,
            n == s@.len(),
            forall|k: int| 0 <= k < i ==> is_blank(#[trigger] s@[k]),
        decreases n - i,
    {
        if !is_blank_char(s.get_char(i)) {
            return i;
        }
        i = i + 1;
    }
    n
}

/// The position right before the trailing blanks, not left of `lo`.
fn scan_back(s: &str, lo: usize) -> (hi: usize)
    requires
        lo <= s@.len(),
    ensures
        lo <= hi <= s@.len(),
        forall|k: int| hi <= k < s@.len() ==> is_blank(#[trigger] s@[k]),
        hi > lo ==> !is_blank(s@[hi - 1]),
{
    let n = s.unicode_len();
    let mut i: usize = n;
    while i > lo
        invariant
            lo <= i <= n,
            n == s@.len(),
            forall|k: int| i <= k < n ==> is_blank(#[trigger] s@[k]),
        decreases i,
    {
        if !is_blank_char(s.get_char(i - 1)) {
            return i;
        }
        i = i - 1;
    }
    lo
}

/// The slice without surrounding blanks, as an owned string.
fn trim_str(s: &str) -> (r: String)
    ensures
        r@ == trimmed(s@),
{
    let lo = scan_front(s);
    let hi = scan_back(s, lo);
    let r = s.substring_char(lo, hi).to_owned();
    proof {
        lemma_trim_front_at(s@, lo as int);
        let f = s@.subrange(lo as int, s@.len() as int);
        assert forall|k: int| hi - lo <= k < f.len() implies is_blank(#[trigger] f[k]) by {
            assert(f[k] == s@[k + lo]);
        }
        lemma_trim_back_at(f, hi as int - lo as int);
        assert(f.subrange(0, hi as int - lo as int) =~= s@.subrange(lo as int, hi as int));
    }
    r
}

/// The position of the first space in the slice, or its length.
fn find_space(s: &str) -> (r: usize)
    ensures
        r == space_idx(s@),
        r <= s@.len(),
{
    let n = s.unicode_len();
    let mut i: usize = 0;
    while i < n
        invariant
            i <= n,
            n == s@.len(),
            forall|k: int| 0 <= k < i ==> #[trigger] s@[k] != ' ',
        decreases n - i,
    {
        if s.get_char(i) == ' ' {
            proof {
                lemma_space_idx_at(s@, i as int);
            }
            return i;
        }
        i = i + 1;
    }
    proof {
        lemma_space_idx_at(s@, n as int);
    }
    n
}

/// Splits one raw line into its command keyword and its argument.
pub fn parse_input(line: &str) -> (r: Input)
    ensures
        r.command@ == spec_command(line@),
        r.arg@ == spec_arg(line@),
{
    let n = line.unicode_len();
    let mut end: usize = n;
    if end > 0 && line.get_char(end - 1) == '\n' {
        end = end - 1;
    }
    if end > 0 && line.get_char(end - 1) == '\r' {
        end = end - 1;
    }
    let s = line.substring_char(0, end);
    proof {
        assert(s@ =~= chomp(line@));
    }
    let slen = s.unicode_len();
    let i = find_space(s);
    if i == slen {
        let command = s.to_owned();
        Input { command, arg: String::new() }
    } else {
        let command = trim_str(s.substring_char(0, i));
        let arg = trim_str(s.substring_char(i, slen));
        Input { command, arg }
    }
}

/// Dropping `lo` leading blanks, with no blank at `lo`, is `trim_front`.
proof fn lemma_trim_front_at(s: Seq<char>, lo: int)
    requires
        0 <= lo <= s.len(),
        forall|k: int| 0 <= k < lo ==> is_blank(#[trigger] s[k]),
        lo < s.len() ==> !is_blank(s[lo]),
    ensures
        trim_front(s) == s.subrange(lo, s.len() as int),
    decreases s.len(),
{
    if lo == 0 {
        assert(s.subrange(0, s.len() as int) =~= s);
    } else {
        lemma_trim_front_at(s.drop_first(), lo - 1);
        assert(s.drop_first().subrange(lo - 1, s.drop_first().len() as int) =~= s.subrange(
            lo,
            s.len() as int,
        ));
    }
}

/// Keeping `hi` characters, with no blank right before `hi` and only blanks
/// after it, is `trim_back`.
proof fn lemma_trim_back_at(s: Seq<char>, hi: int)
    requires
        0 <= hi <= s.len(),
        forall|k: int| hi <= k < s.len() ==> is_blank(#[trigger] s[k]),
        hi > 0 ==> !is_blank(s[hi - 1]),
    ensures
        trim_back(s) == s.subrange(0, hi),
    decreases s.len(),
{
    if hi == s.len() {
        assert(s.subrange(0, s.len() as int) =~= s);
    } else {
        lemma_trim_back_at(s.drop_last(), hi);
        assert(s.drop_last().subrange(0, hi) =~= s.subrange(0, hi));
    }
}

/// A prefix without spaces followed by a space, or by the end, fixes
/// `space_idx`.
proof fn lemma_space_idx_at(s: Seq<char>, i: int)
    requires
        0 <= i <= s.len(),
        forall|k: int| 0 <= k < i ==> #[trigger] s[k] != ' ',
        i < s.len() ==> s[i] == ' ',
    ensures
        space_idx(s) == i,
    decreases s.len(),
{
    if s.len() == 0 {
    } else if i == 0 {
    } else {
        lemma_space_idx_at(s.drop_first(), i - 1);
    }
}

} // verus!
