//! Character-level text helpers shared by the classifier and the search
//! index: ASCII-case-insensitive comparison and substring containment,
//! and whitespace tokenization.
//!
//! All specifications are stated over `Seq<char>`, the view of `&str`.

use vstd::prelude::*;
use vstd::string::StrSliceExecFns;
use vstd::string::StringExecFns;

verus! {

/// ASCII whitespace: space, tab, line feed, vertical tab, form feed,
/// carriage return.
pub open spec fn is_ws(c: char) -> bool {
    c == ' ' || c == '\t' || c == '\n' || c == '\u{000B}' || c == '\u{000C}' || c == '\r'
}

/// ASCII upper-case letter.
pub open spec fn is_ascii_upper(c: char) -> bool {
    'A' as u32 <= c as u32 && c as u32 <= 'Z' as u32
}

/// ASCII decimal digit.
pub open spec fn is_ascii_digit(c: char) -> bool {
    '0' as u32 <= c as u32 && c as u32 <= '9' as u32
}

/// Two characters are equal up to ASCII case: identical, or the same
/// letter with upper and lower case 32 code points apart.
pub open spec fn eq_ci(a: char, b: char) -> bool {
    ||| a == b
    ||| (is_ascii_upper(a) && a as u32 + 32 == b as u32)
    ||| (is_ascii_upper(b) && b as u32 + 32 == a as u32)
}

/// Sequence equality up to ASCII case.
pub open spec fn seq_eq_ci(a: Seq<char>, b: Seq<char>) -> bool {
    a.len() == b.len() && forall|i: int| 0 <= i < a.len() ==> eq_ci(a[i], b[i])
}

/// `needle` occurs somewhere inside `hay`, compared up to ASCII case.
pub open spec fn occurs_ci(hay: Seq<char>, needle: Seq<char>) -> bool {
    exists|i: int|
        0 <= i && i + needle.len() <= hay.len() && seq_eq_ci(
            #[trigger] hay.subrange(i, i + needle.len() as int),
            needle,
        )
}

/// Whitespace-delimited tokens of `s`, in order: maximal runs of
/// non-whitespace characters. Defined one character at a time: a leading
/// non-whitespace character either extends the first token (when the next
/// character also belongs to it) or opens a new one.
pub open spec fn tokens_of(s: Seq<char>) -> Seq<Seq<char>>
    decreases s.len(),
{
    if s.len() == 0 {
        Seq::empty()
    } else {
        let rest = tokens_of(s.drop_first());
        if is_ws(s[0]) {
            rest
        } else if s.len() > 1 && !is_ws(s[1]) {
            seq![seq![s[0]] + rest[0]] + rest.drop_first()
        } else {
            seq![seq![s[0]]] + rest
        }
    }
}

/// Number of line-feed characters in `s`; `s` splits into one more
/// newline-delimited segment than this count.
pub open spec fn newline_count(s: Seq<char>) -> nat
    decreases s.len(),
{
    if s.len() == 0 {
        0
    } else {
        (if s[0] == '\n' {
            1nat
        } else {
            0nat
        }) + newline_count(s.drop_first())
    }
}

/// Tests a character for ASCII whitespace.
pub fn char_is_ws(c: char) -> (r: bool)
    ensures
        r == is_ws(c),
{
    c == ' ' || c == '\t' || c == '\n' || c == '\u{000B}' || c == '\u{000C}' || c == '\r'
}

/// Tests two characters for equality up to ASCII case.
pub fn chars_eq_ci(a: char, b: char) -> (r: bool)
    ensures
        r == eq_ci(a, b),
{
    let av = a as u32;
    let bv = b as u32;
    av == bv || (65 <= av && av <= 90 && av + 32 == bv) || (65 <= bv && bv <= 90 && bv + 32 == av)
}

/// Tests whether `needle` matches `hay` at position `at`, up to ASCII case.
fn matches_at(hay: &str, needle: &str, at: usize) -> (is_match: bool)
    requires
        at + needle@.len() <= hay@.len(),
        hay@.len() <= usize::MAX,
    ensures
        is_match == seq_eq_ci(hay@.subrange(at as int, at + needle@.len()), needle@),
{
    let needle_len = needle.unicode_len();
    let mut j: usize = 0;
    while j < needle_len
        invariant
            j <= needle_len,
            needle_len == needle@.len(),
            at + needle@.len() <= hay@.len(),
            hay@.len() <= usize::MAX,
            forall|k: int| 0 <= k < j ==> eq_ci(hay@[at + k], needle@[k]),
        decreases needle_len - j,
    {
        if !chars_eq_ci(hay.get_char(at + j), needle.get_char(j)) {
            assert(!seq_eq_ci(hay@.subrange(at as int, at + needle@.len()), needle@)) by {
                assert(hay@.subrange(at as int, at + needle@.len())[j as int] == hay@[at + j]);
            }
            return false;
        }
        j += 1;
    }
    assert(seq_eq_ci(hay@.subrange(at as int, at + needle@.len()), needle@)) by {
        assert(forall|k: int|
            0 <= k < needle@.len() ==> #[trigger] hay@.subrange(at as int, at + needle@.len())[k]
                == hay@[at + k]);
    }
    true
}

/// Tests whether `needle` occurs anywhere inside `hay`, up to ASCII case.
pub fn contains_ci(hay: &str, needle: &str) -> (found: bool)
    ensures
        found == occurs_ci(hay@, needle@),
{
    let hay_len = hay.unicode_len();
    let needle_len = needle.unicode_len();
    if needle_len > hay_len {
        return false;
    }
    let mut i: usize = 0;
    while i <= hay_len - needle_len
        invariant
            needle_len <= hay_len,
            i <= hay_len - needle_len + 1,
            hay_len == hay@.len(),
            needle_len == needle@.len(),
            forall|k: int|
                0 <= k < i ==> !seq_eq_ci(
                    #[trigger] hay@.subrange(k, k + needle@.len() as int),
                    needle@,
                ),
        decreases hay_len - needle_len + 1 - i,
    {
        if matches_at(hay, needle, i) {
            return true;
        }
        i += 1;
    }
    false
}

/// Tests two string slices for plain (case-sensitive) equality.
pub fn str_eq(a: &str, b: &str) -> (r: bool)
    ensures
        r == (a@ == b@),
{
    let a_len = a.unicode_len();
    let b_len = b.unicode_len();
    if a_len != b_len {
        return false;
    }
    let mut i: usize = 0;
    while i < a_len
        invariant
            i <= a_len,
            a_len == a@.len(),
            a_len == b@.len(),
            forall|k: int| 0 <= k < i ==> a@[k] == b@[k],
        decreases a_len - i,
    {
        if a.get_char(i) != b.get_char(i) {
            return false;
        }
        i += 1;
    }
    proof {
        assert(a@ =~= b@);
    }
    true
}

/// Dropping the first element of the suffix at `i` gives the suffix at `i + 1`.
pub proof fn lemma_skip_succ(s: Seq<char>, i: int)
    requires
        0 <= i < s.len(),
    ensures
        s.skip(i).drop_first() == s.skip(i + 1),
        s.skip(i)[0] == s[i],
        s.skip(i).len() == s.len() - i,
{
    assert(s.skip(i).drop_first() =~= s.skip(i + 1));
}

/// A maximal run of non-whitespace characters at the front of `s` is its
/// first token, and the remaining tokens are those of the rest.
pub proof fn lemma_token_split(s: Seq<char>, j: int)
    requires
        0 < j <= s.len(),
        forall|k: int| 0 <= k < j ==> !is_ws(#[trigger] s[k]),
        j == s.len() || is_ws(s[j]),
    ensures
        tokens_of(s) == seq![s.subrange(0, j)] + tokens_of(s.skip(j)),
    decreases j,
{
    if j == 1 {
        assert(s.subrange(0, 1) =~= seq![s[0]]);
        assert(s.skip(1) =~= s.drop_first());
        assert(tokens_of(s) =~= seq![s.subrange(0, j)] + tokens_of(s.skip(j)));
    } else {
        let rest = s.drop_first();
        assert(forall|k: int| 0 <= k < j - 1 ==> !is_ws(#[trigger] rest[k])) by {
            assert(forall|k: int| 0 <= k < j - 1 ==> rest[k] == s[k + 1]);
        }
        lemma_token_split(rest, j - 1);
        assert(rest.subrange(0, j - 1) =~= s.subrange(1, j));
        assert(rest.skip(j - 1) =~= s.skip(j));
        assert(seq![s[0]] + s.subrange(1, j) =~= s.subrange(0, j));
        assert(tokens_of(s) =~= seq![s.subrange(0, j)] + tokens_of(s.skip(j)));
    }
}

/// Splits a string into its whitespace-delimited tokens.
pub fn tokenize(s: &str) -> (tokens: Vec<String>)
    ensures
        tokens.deep_view() == tokens_of(s@),
{
    let len = s.unicode_len();
    let mut tokens: Vec<String> = Vec::new();
    let mut i: usize = 0;
    proof {
        assert(s@.skip(0) =~= s@);
    }
    while i < len
        invariant
            i <= len,
            len == s@.len(),
            tokens.deep_view() + tokens_of(s@.skip(i as int)) == tokens_of(s@),
        decreases len - i,
    {
        if char_is_ws(s.get_char(i)) {
            proof {
                lemma_skip_succ(s@, i as int);
            }
            i += 1;
        } else {
            let mut j: usize = i + 1;
            while j < len && !char_is_ws(s.get_char(j))
                invariant
                    i < j <= len,
                    len == s@.len(),
                    forall|k: int| i <= k < j ==> !is_ws(#[trigger] s@[k]),
                decreases len - j,
            {
                j += 1;
            }
            let token = s.substring_char(i, j);
            let ghost prior = tokens.deep_view();
            tokens.push(String::from_str(token));
            proof {
                let suffix = s@.skip(i as int);
                assert(forall|k: int| 0 <= k < j - i ==> suffix[k] == s@[i + k]);
                assert(j < len ==> suffix[j - i] == s@[j as int]);
                lemma_token_split(suffix, j - i);
                assert(suffix.subrange(0, j - i) =~= s@.subrange(i as int, j as int));
                assert(suffix.skip(j - i) =~= s@.skip(j as int));
                assert(tokens.deep_view() =~= prior.push(token@));
                assert(prior.push(token@) + tokens_of(s@.skip(j as int)) =~= prior + (seq![
                    token@,
                ] + tokens_of(s@.skip(j as int))));
            }
            i = j;
        }
    }
    proof {
        assert(tokens.deep_view() + tokens_of(s@.skip(len as int)) =~= tokens.deep_view());
    }
    tokens
}

/// Counts the line-feed characters in `s`.
pub fn count_newlines(s: &str) -> (count: usize)
    ensures
        count == newline_count(s@),
{
    let len = s.unicode_len();
    let mut count: usize = 0;
    let mut i: usize = 0;
    proof {
        assert(s@.skip(0) =~= s@);
    }
    while i < len
        invariant
            i <= len,
            count <= i,
            len == s@.len(),
            count + newline_count(s@.skip(i as int)) == newline_count(s@),
        decreases len - i,
    {
        proof {
            lemma_skip_succ(s@, i as int);
        }
        if s.get_char(i) == '\n' {
            count += 1;
        }
        i += 1;
    }
    count
}

} // verus!
