//! Pure string transforms: filename sanitization and whitespace
//! normalization, together with the word splitting that canonical
//! identifiers are derived from.

use vstd::prelude::*;
use vstd::string::StrSliceExecFns;
use vstd::string::StringExecFns;

verus! {

/// Relies on `String::push`: appends the character to the string.
pub assume_specification[ String::push ](s: &mut String, c: char)
    ensures
        final(s)@ == old(s)@.push(c),
;

/// A character that may appear in a filename or canonical identifier:
/// ASCII letters, digits, `_` and `-`.
pub open spec fn is_ident_char(c: char) -> bool {
    let n = c as u32;
    (97 <= n && n <= 122)  // 'a'..='z'
    || (65 <= n && n <= 90)  // 'A'..='Z'
    || (48 <= n && n <= 57)  // '0'..='9'
    || n == 95  // '_'
    || n == 45  // '-'
}

/// A whitespace character, for trimming and normalization.
pub open spec fn is_space_char(c: char) -> bool {
    c == ' ' || c == '\t' || c == '\n' || c == '\r' || c == '\u{b}' || c == '\u{c}'
}

/// Every character of `s` may appear in an identifier.
pub open spec fn all_ident_chars(s: Seq<char>) -> bool {
    forall|i: int| 0 <= i < s.len() ==> is_ident_char(#[trigger] s[i])
}

/// `s` with every character outside `[A-Za-z0-9_-]` removed.
pub open spec fn sanitize_text(s: Seq<char>) -> Seq<char>
    decreases s.len(),
{
    if s.len() == 0 {
        Seq::empty()
    } else if is_ident_char(s.last()) {
        sanitize_text(s.drop_last()).push(s.last())
    } else {
        sanitize_text(s.drop_last())
    }
}

/// Decides `is_ident_char` on a concrete character.
pub fn check_ident_char(c: char) -> (r: bool)
    ensures
        r == is_ident_char(c),
{
    let n = c as u32;
    (97 <= n && n <= 122) || (65 <= n && n <= 90) || (48 <= n && n <= 57) || n == 95 || n == 45
}

/// Decides `is_space_char` on a concrete character.
pub fn check_space_char(c: char) -> (r: bool)
    ensures
        r == is_space_char(c),
{
    c == ' ' || c == '\t' || c == '\n' || c == '\r' || c == '\u{b}' || c == '\u{c}'
}

/// Sanitizes a string for use as a filename by removing every character
/// outside `[A-Za-z0-9_-]`.
pub fn sanitize_filename(name: &str) -> (r: String)
    ensures
        r@ == sanitize_text(name@),
{
    let len = name.unicode_len();
    let mut out = String::new();
    let mut i: usize = 0;
    while i < len
        invariant
            i <= len,
            len == name@.len(),
            out@ == sanitize_text(name@.take(i as int)),
        decreases len - i,
    {
        let c = name.get_char(i);
        proof {
            assert(name@.take(i + 1).drop_last() =~= name@.take(i as int));
            assert(name@.take(i + 1).last() == name@[i as int]);
        }
        if check_ident_char(c) {
            out.push(c);
        }
        i += 1;
    }
    proof {
        assert(name@.take(len as int) =~= name@);
    }
    out
}

/// Everything a sanitized string holds is an identifier character.
pub proof fn lemma_sanitize_all_ident(s: Seq<char>)
    ensures
        all_ident_chars(sanitize_text(s)),
    decreases s.len(),
{
    if s.len() > 0 {
        lemma_sanitize_all_ident(s.drop_last());
    }
}

/// Sanitizing leaves a string of identifier characters unchanged.
pub proof fn lemma_sanitize_fixpoint(s: Seq<char>)
    requires
        all_ident_chars(s),
    ensures
        sanitize_text(s) == s,
    decreases s.len(),
{
    if s.len() == 0 {
        assert(sanitize_text(s) =~= s);
    } else {
        lemma_sanitize_fixpoint(s.drop_last());
        assert(sanitize_text(s) =~= s);
    }
}

/// Sanitizing twice yields the same result as sanitizing once.
pub proof fn lemma_sanitize_idempotent(s: Seq<char>)
    ensures
        sanitize_text(sanitize_text(s)) == sanitize_text(s),
{
    lemma_sanitize_all_ident(s);
    lemma_sanitize_fixpoint(sanitize_text(s));
}

/// `s` without its leading whitespace.
pub open spec fn trim_start_text(s: Seq<char>) -> Seq<char>
    decreases s.len(),
{
    if s.len() > 0 && is_space_char(s.first()) {
        trim_start_text(s.drop_first())
    } else {
        s
    }
}

/// `s` without its trailing whitespace.
pub open spec fn trim_end_text(s: Seq<char>) -> Seq<char>
    decreases s.len(),
{
    if s.len() > 0 && is_space_char(s.last()) {
        trim_end_text(s.drop_last())
    } else {
        s
    }
}

/// `s` without leading and trailing whitespace.
pub open spec fn trim_text(s: Seq<char>) -> Seq<char> {
    trim_end_text(trim_start_text(s))
}

/// `s` with every run of whitespace replaced by a single space: the first
/// character of each run is kept, as `' '`, and the rest of the run dropped.
pub open spec fn collapse_spaces(s: Seq<char>) -> Seq<char>
    decreases s.len(),
{
    if s.len() == 0 {
        Seq::empty()
    } else {
        let rest = collapse_spaces(s.drop_last());
        if is_space_char(s.last()) {
            if s.len() >= 2 && is_space_char(s[s.len() - 2]) {
                rest
            } else {
                rest.push(' ')
            }
        } else {
            rest.push(s.last())
        }
    }
}

/// `s` trimmed at both ends, with every internal whitespace run collapsed
/// to a single space.
pub open spec fn normalize_text(s: Seq<char>) -> Seq<char> {
    collapse_spaces(trim_text(s))
}

/// When the first `lo` characters of `s` are whitespace and the one at `lo`
/// (if any) is not, trimming the start drops exactly those `lo` characters.
proof fn lemma_trim_start_skip(s: Seq<char>, lo: int)
    requires
        0 <= lo <= s.len(),
        forall|k: int| 0 <= k < lo ==> is_space_char(#[trigger] s[k]),
        lo < s.len() ==> !is_space_char(s[lo]),
    ensures
        trim_start_text(s) == s.skip(lo),
    decreases lo,
{
    if lo == 0 {
        assert(s.skip(0) =~= s);
    } else {
        assert(is_space_char(s[0]));
        assert forall|k: int| 0 <= k < lo - 1 implies is_space_char(#[trigger] s.drop_first()[k]) by {
            assert(s.drop_first()[k] == s[k + 1]);
        }
        lemma_trim_start_skip(s.drop_first(), lo - 1);
        assert(s.drop_first().skip(lo - 1) =~= s.skip(lo));
    }
}

/// When the characters of `s` from `hi` on are whitespace and the one at
/// `hi - 1` (if any) is not, trimming the end keeps exactly the first `hi`.
proof fn lemma_trim_end_take(s: Seq<char>, hi: int)
    requires
        0 <= hi <= s.len(),
        forall|k: int| hi <= k < s.len() ==> is_space_char(#[trigger] s[k]),
        hi > 0 ==> !is_space_char(s[hi - 1]),
    ensures
        trim_end_text(s) == s.take(hi),
    decreases s.len(),
{
    if s.len() == hi {
        assert(s.take(hi) =~= s);
    } else {
        assert(is_space_char(s.last()));
        lemma_trim_end_take(s.drop_last(), hi);
        assert(s.drop_last().take(hi) =~= s.take(hi));
    }
}

/// Collapsing keeps the first character when it is not whitespace.
proof fn lemma_collapse_head(s: Seq<char>)
    requires
        s.len() > 0,
        !is_space_char(s.first()),
    ensures
        collapse_spaces(s).len() > 0,
        collapse_spaces(s).first() == s.first(),
    decreases s.len(),
{
    if s.len() > 1 {
        assert(s.drop_last().first() == s.first());
        lemma_collapse_head(s.drop_last());
        let rest = collapse_spaces(s.drop_last());
        assert(rest.push(' ')[0] == rest[0]);
        assert(rest.push(s.last())[0] == rest[0]);
    } else {
        assert(collapse_spaces(s.drop_last()).push(s.last())[0] == s.last());
    }
}

/// Collapsing keeps the last character when it is not whitespace.
proof fn lemma_collapse_last(s: Seq<char>)
    requires
        s.len() > 0,
        !is_space_char(s.last()),
    ensures
        collapse_spaces(s).len() > 0,
        collapse_spaces(s).last() == s.last(),
{
}

/// In a collapsed string every whitespace character is `' '` and no two
/// whitespace characters are adjacent.
proof fn lemma_collapse_collapsed(s: Seq<char>)
    ensures
        forall|i: int|
            0 <= i < collapse_spaces(s).len() && is_space_char(#[trigger] collapse_spaces(s)[i])
                ==> collapse_spaces(s)[i] == ' ',
        forall|i: int|
            0 <= i < collapse_spaces(s).len() - 1 && is_space_char(
                #[trigger] collapse_spaces(s)[i],
            ) ==> !is_space_char(collapse_spaces(s)[i + 1]),
    decreases s.len(),
{
    if s.len() > 0 {
        lemma_collapse_collapsed(s.drop_last());
        let r = collapse_spaces(s);
        let rest = collapse_spaces(s.drop_last());
        if is_space_char(s.last()) {
            if s.len() >= 2 && is_space_char(s[s.len() - 2]) {
            } else {
                if s.len() >= 2 {
                    lemma_collapse_last(s.drop_last());
                }
                assert forall|i: int| 0 <= i < r.len() && is_space_char(#[trigger] r[i]) implies r[i]
                    == ' ' by {
                    if i < rest.len() {
                        assert(r[i] == rest[i]);
                    }
                }
                assert forall|i: int|
                    0 <= i < r.len() - 1 && is_space_char(#[trigger] r[i]) implies !is_space_char(
                    r[i + 1],
                ) by {
                    assert(r[i] == rest[i]);
                    if i < rest.len() - 1 {
                        assert(r[i + 1] == rest[i + 1]);
                    } else {
                        assert(i == rest.len() - 1);
                        assert(rest.last() == s[s.len() - 2] || s.len() == 1);
                    }
                }
            }
        } else {
            assert forall|i: int| 0 <= i < r.len() && is_space_char(#[trigger] r[i]) implies r[i]
                == ' ' by {
                if i < rest.len() {
                    assert(r[i] == rest[i]);
                }
            }
            assert forall|i: int|
                0 <= i < r.len() - 1 && is_space_char(#[trigger] r[i]) implies !is_space_char(
                r[i + 1],
            ) by {
                assert(r[i] == rest[i]);
                if i < rest.len() - 1 {
                    assert(r[i + 1] == rest[i + 1]);
                }
            }
        }
    }
}

/// Collapsing leaves a string unchanged when every whitespace character in
/// it is `' '` and no two are adjacent.
proof fn lemma_collapse_fixpoint(s: Seq<char>)
    requires
        forall|i: int| 0 <= i < s.len() && is_space_char(#[trigger] s[i]) ==> s[i] == ' ',
        forall|i: int|
            0 <= i < s.len() - 1 && is_space_char(#[trigger] s[i]) ==> !is_space_char(s[i + 1]),
    ensures
        collapse_spaces(s) == s,
    decreases s.len(),
{
    if s.len() == 0 {
        assert(collapse_spaces(s) =~= s);
    } else {
        assert forall|i: int|
            0 <= i < s.drop_last().len() && is_space_char(
                #[trigger] s.drop_last()[i],
            ) implies s.drop_last()[i] == ' ' by {
            assert(s.drop_last()[i] == s[i]);
        }
        assert forall|i: int|
            0 <= i < s.drop_last().len() - 1 && is_space_char(
                #[trigger] s.drop_last()[i],
            ) implies !is_space_char(s.drop_last()[i + 1]) by {
            assert(s.drop_last()[i] == s[i]);
            assert(s.drop_last()[i + 1] == s[i + 1]);
        }
        lemma_collapse_fixpoint(s.drop_last());
        if is_space_char(s.last()) {
            assert(s[s.len() - 1] == ' ');
            if s.len() >= 2 {
                assert(!is_space_char(s[s.len() - 2])) by {
                    if is_space_char(s[s.len() - 2]) {
                        assert(!is_space_char(s[s.len() - 1]));
                    }
                }
            }
            assert(collapse_spaces(s) =~= s);
        } else {
            assert(collapse_spaces(s) =~= s);
        }
    }
}

/// Trimming the start of a string that does not begin with whitespace, or
/// the end of one that does not end with it, changes nothing.
proof fn lemma_trim_noop(s: Seq<char>)
    ensures
        s.len() == 0 || !is_space_char(s.first()) ==> trim_start_text(s) == s,
        s.len() == 0 || !is_space_char(s.last()) ==> trim_end_text(s) == s,
{
}

/// Trimming the end keeps the head of a string that begins with
/// non-whitespace, and leaves no trailing whitespace.
proof fn lemma_trim_end_keeps_head(u: Seq<char>)
    requires
        u.len() > 0,
        !is_space_char(u.first()),
    ensures
        trim_end_text(u).len() > 0,
        trim_end_text(u).first() == u.first(),
        !is_space_char(trim_end_text(u).last()),
    decreases u.len(),
{
    if is_space_char(u.last()) {
        lemma_trim_end_keeps_head(u.drop_last());
    }
}

/// The start of a start-trimmed string is not whitespace.
proof fn lemma_trim_start_head(s: Seq<char>)
    ensures
        trim_start_text(s).len() > 0 ==> !is_space_char(trim_start_text(s).first()),
    decreases s.len(),
{
    if s.len() > 0 && is_space_char(s.first()) {
        lemma_trim_start_head(s.drop_first());
    }
}

/// A normalized string: free of leading and trailing whitespace, every
/// whitespace character a single `' '`, never two in a row.
pub open spec fn space_normalized(s: Seq<char>) -> bool {
    &&& forall|i: int| 0 <= i < s.len() && is_space_char(#[trigger] s[i]) ==> s[i] == ' '
    &&& forall|i: int|
        0 <= i < s.len() - 1 && is_space_char(#[trigger] s[i]) ==> !is_space_char(s[i + 1])
    &&& s.len() > 0 ==> !is_space_char(s.first()) && !is_space_char(s.last())
}

/// Whitespace normalization yields a normalized string.
pub proof fn lemma_normalize_normalized(s: Seq<char>)
    ensures
        space_normalized(normalize_text(s)),
{
    let t = trim_text(s);
    lemma_collapse_collapsed(t);
    lemma_trim_start_head(s);
    if trim_start_text(s).len() > 0 {
        lemma_trim_end_keeps_head(trim_start_text(s));
        lemma_collapse_head(t);
        lemma_collapse_last(t);
    }
}

/// Normalizing whitespace twice yields the same result as normalizing once.
pub proof fn lemma_normalize_idempotent(s: Seq<char>)
    ensures
        normalize_text(normalize_text(s)) == normalize_text(s),
{
    let r = normalize_text(s);
    lemma_normalize_normalized(s);
    if r.len() > 0 {
        lemma_trim_noop(r);
        lemma_trim_noop(trim_start_text(r));
    }
    lemma_collapse_fixpoint(trim_text(r));
}

/// The bounds of the trimmed middle of `s`: trimming removes exactly the
/// characters before the first bound and from the second bound on.
fn trimmed_bounds(s: &str) -> (r: (usize, usize))
    ensures
        r.0 <= r.1 <= s@.len(),
        trim_text(s@) == s@.subrange(r.0 as int, r.1 as int),
{
    let len = s.unicode_len();
    let mut lo: usize = 0;
    while lo < len && check_space_char(s.get_char(lo))
        invariant
            lo <= len,
            len == s@.len(),
            forall|k: int| 0 <= k < lo ==> is_space_char(#[trigger] s@[k]),
        decreases len - lo,
    {
        lo += 1;
    }
    if lo == len {
        proof {
            lemma_trim_start_skip(s@, len as int);
            assert(s@.skip(len as int) =~= Seq::<char>::empty());
            assert(s@.subrange(len as int, len as int) =~= Seq::<char>::empty());
        }
        return (len, len);
    }
    let mut hi: usize = len;
    while check_space_char(s.get_char(hi - 1))
        invariant
            lo < hi <= len,
            len == s@.len(),
            !is_space_char(s@[lo as int]),
            forall|k: int| hi <= k < len ==> is_space_char(#[trigger] s@[k]),
        decreases hi,
    {
        hi -= 1;
    }
    proof {
        lemma_trim_start_skip(s@, lo as int);
        assert forall|k: int| hi - lo <= k < s@.skip(lo as int).len() implies is_space_char(
            #[trigger] s@.skip(lo as int)[k],
        ) by {
            assert(s@.skip(lo as int)[k] == s@[k + lo]);
        }
        assert(s@.skip(lo as int)[hi - lo - 1] == s@[hi - 1]);
        lemma_trim_end_take(s@.skip(lo as int), hi - lo);
        assert(s@.skip(lo as int).take(hi - lo) =~= s@.subrange(lo as int, hi as int));
    }
    (lo, hi)
}

/// Trims leading and trailing whitespace, keeping the inside unchanged.
pub fn trim_whitespace(s: &str) -> (r: String)
    ensures
        r@ == trim_text(s@),
{
    let bounds = trimmed_bounds(s);
    s.substring_char(bounds.0, bounds.1).to_owned()
}

/// Compares two strings character by character.
pub fn str_eq(a: &str, b: &str) -> (r: bool)
    ensures
        r == (a@ == b@),
{
    let la = a.unicode_len();
    let lb = b.unicode_len();
    if la != lb {
        return false;
    }
    let mut i: usize = 0;
    while i < la
        invariant
            i <= la,
            la == a@.len(),
            la == b@.len(),
            forall|k: int| 0 <= k < i ==> a@[k] == b@[k],
        decreases la - i,
    {
        if a.get_char(i) != b.get_char(i) {
            return false;
        }
        i += 1;
    }
    proof {
        assert(a@ =~= b@);
    }
    true
}

/// A start-trimmed string is empty only when the whole string was
/// whitespace.
proof fn lemma_trim_start_empty(s: Seq<char>)
    ensures
        trim_start_text(s).len() == 0 ==> (forall|i: int|
            0 <= i < s.len() ==> is_space_char(#[trigger] s[i])),
    decreases s.len(),
{
    if s.len() > 0 && is_space_char(s.first()) {
        lemma_trim_start_empty(s.drop_first());
        if trim_start_text(s).len() == 0 {
            assert forall|i: int| 0 <= i < s.len() implies is_space_char(#[trigger] s[i]) by {
                if i > 0 {
                    assert(s.drop_first()[i - 1] == s[i]);
                }
            }
        }
    }
}

/// A string trims to nothing exactly when every character is whitespace.
pub proof fn lemma_trim_empty_iff_blank(s: Seq<char>)
    ensures
        trim_text(s).len() == 0 <==> (forall|i: int|
            0 <= i < s.len() ==> is_space_char(#[trigger] s[i])),
{
    if forall|i: int| 0 <= i < s.len() ==> is_space_char(#[trigger] s[i]) {
        lemma_trim_start_skip(s, s.len() as int);
        assert(s.skip(s.len() as int) =~= Seq::<char>::empty());
    } else {
        lemma_trim_start_empty(s);
        lemma_trim_start_head(s);
        lemma_trim_end_keeps_head(trim_start_text(s));
    }
}

/// Decides whether a string is entirely whitespace (or empty).
pub fn is_blank(s: &str) -> (r: bool)
    ensures
        r == (trim_text(s@).len() == 0),
{
    let len = s.unicode_len();
    let mut i: usize = 0;
    while i < len && check_space_char(s.get_char(i))
        invariant
            i <= len,
            len == s@.len(),
            forall|k: int| 0 <= k < i ==> is_space_char(#[trigger] s@[k]),
        decreases len - i,
    {
        i += 1;
    }
    proof {
        lemma_trim_empty_iff_blank(s@);
    }
    i == len
}

/// The longest whitespace-free prefix of `s`.
pub open spec fn leading_word(s: Seq<char>) -> Seq<char>
    decreases s.len(),
{
    if s.len() == 0 || is_space_char(s.first()) {
        Seq::empty()
    } else {
        seq![s.first()] + leading_word(s.drop_first())
    }
}

/// The leading word is no longer than the string, and non-empty exactly
/// when the string starts with non-whitespace.
pub proof fn lemma_leading_word_len(s: Seq<char>)
    ensures
        leading_word(s).len() <= s.len(),
        s.len() > 0 && !is_space_char(s.first()) ==> leading_word(s).len() >= 1,
    decreases s.len(),
{
    if s.len() > 0 && !is_space_char(s.first()) {
        lemma_leading_word_len(s.drop_first());
    }
}

/// The whitespace-delimited words of `s`, in order.
pub open spec fn words_text(s: Seq<char>) -> Seq<Seq<char>>
    decreases s.len(),
    via words_text_decreases
{
    if s.len() == 0 {
        Seq::empty()
    } else if is_space_char(s.first()) {
        words_text(s.drop_first())
    } else {
        seq![leading_word(s)] + words_text(s.skip(leading_word(s).len() as int))
    }
}

#[via_fn]
proof fn words_text_decreases(s: Seq<char>) {
    if s.len() > 0 && !is_space_char(s.first()) {
        lemma_leading_word_len(s);
    }
}

/// The canonical file name (without extension) derived from note content:
/// the first three whitespace-delimited words joined with `-` when there
/// are at least three, otherwise the whole content, sanitized either way.
pub open spec fn file_name_text(content: Seq<char>) -> Seq<char> {
    if words_text(content).len() >= 3 {
        sanitize_text(
            words_text(content)[0] + seq!['-'] + words_text(content)[1] + seq!['-'] + words_text(
                content,
            )[2],
        )
    } else {
        sanitize_text(content)
    }
}

/// A canonical file name is already sanitized: every character of it may
/// appear in an identifier, and sanitizing it again changes nothing.
pub proof fn lemma_file_name_sanitized(content: Seq<char>)
    ensures
        all_ident_chars(file_name_text(content)),
        sanitize_text(file_name_text(content)) == file_name_text(content),
{
    if words_text(content).len() >= 3 {
        lemma_sanitize_all_ident(
            words_text(content)[0] + seq!['-'] + words_text(content)[1] + seq!['-'] + words_text(
                content,
            )[2],
        );
    } else {
        lemma_sanitize_all_ident(content);
    }
    lemma_sanitize_fixpoint(file_name_text(content));
}

/// Collects the whitespace-delimited words of `s`, in order, stopping after
/// the first `k`.
pub fn split_words(s: &str, k: usize) -> (r: Vec<String>)
    ensures
        r@.len() <= k,
        words_text(s@).len() >= k ==> r.deep_view() == words_text(s@).take(k as int),
        words_text(s@).len() < k ==> r.deep_view() == words_text(s@),
{
    let len = s.unicode_len();
    let mut r: Vec<String> = Vec::new();
    let mut i: usize = 0;
    proof {
        assert(r.deep_view() =~= Seq::<Seq<char>>::empty());
        assert(s@.skip(0) =~= s@);
        assert(r.deep_view() + words_text(s@) =~= words_text(s@));
    }
    while i < len && r.len() < k
        invariant
            i <= len,
            len == s@.len(),
            r@.len() <= k,
            r.deep_view() + words_text(s@.skip(i as int)) == words_text(s@),
        decreases len - i,
    {
        let c = s.get_char(i);
        if check_space_char(c) {
            proof {
                assert(s@.skip(i as int).first() == s@[i as int]);
                assert(s@.skip(i as int).drop_first() =~= s@.skip(i + 1));
            }
            i += 1;
        } else {
            let ghost start = i as int;
            let mut w = String::new();
            while i < len && !check_space_char(s.get_char(i))
                invariant
                    start <= i <= len,
                    len == s@.len(),
                    w@.len() == i - start,
                    w@ + leading_word(s@.skip(i as int)) == leading_word(s@.skip(start)),
                decreases len - i,
            {
                let c2 = s.get_char(i);
                proof {
                    assert(s@.skip(i as int).first() == s@[i as int]);
                    assert(s@.skip(i as int).drop_first() =~= s@.skip(i + 1));
                    assert(w@.push(s@[i as int]) + leading_word(s@.skip(i + 1)) =~= w@ + (seq![
                        s@[i as int],
                    ] + leading_word(s@.skip(i + 1))));
                }
                w.push(c2);
                i += 1;
            }
            proof {
                if i < len {
                    assert(s@.skip(i as int).first() == s@[i as int]);
                } else {
                    assert(s@.skip(i as int) =~= Seq::<char>::empty());
                }
                assert(leading_word(s@.skip(i as int)) =~= Seq::<char>::empty());
                assert(w@ =~= leading_word(s@.skip(start)));
                assert(s@.skip(start).first() == s@[start]);
                assert(s@.skip(start).skip(w@.len() as int) =~= s@.skip(i as int));
                assert(words_text(s@.skip(start)) == seq![w@] + words_text(s@.skip(i as int)));
                assert((r.deep_view().push(w@)) + words_text(s@.skip(i as int)) =~= r.deep_view()
                    + (seq![w@] + words_text(s@.skip(i as int))));
            }
            let ghost old_r = r.deep_view();
            r.push(w);
            proof {
                assert(r.deep_view() =~= old_r.push(r@[r@.len() - 1].deep_view()));
            }
        }
    }
    proof {
        if i == len {
            assert(s@.skip(len as int) =~= Seq::<char>::empty());
            assert(r.deep_view() + words_text(s@.skip(len as int)) =~= r.deep_view());
        } else {
            assert(r@.len() == k);
            assert(r.deep_view().len() == k);
            assert(words_text(s@).len() >= k);
            assert(words_text(s@).take(k as int) =~= r.deep_view());
        }
        if words_text(s@).len() < k {
        } else if i == len {
            assert(words_text(s@).take(k as int) =~= r.deep_view());
        }
    }
    r
}

/// Trims leading and trailing whitespace and collapses every internal run
/// of whitespace to a single space.
pub fn normalize_whitespace(input: &str) -> (r: String)
    ensures
        r@ == normalize_text(input@),
{
    let len = input.unicode_len();
    let bounds = trimmed_bounds(input);
    let lo = bounds.0;
    let hi = bounds.1;
    let mut out = String::new();
    let mut i: usize = lo;
    while i < hi
        invariant
            lo <= i <= hi <= len,
            len == input@.len(),
            out@ == collapse_spaces(input@.subrange(lo as int, i as int)),
        decreases hi - i,
    {
        let c = input.get_char(i);
        proof {
            let t = input@.subrange(lo as int, i + 1);
            assert(t.drop_last() =~= input@.subrange(lo as int, i as int));
            assert(t.last() == input@[i as int]);
            if i > lo {
                assert(t[t.len() - 2] == input@[i - 1]);
            }
        }
        if check_space_char(c) {
            if i > lo && check_space_char(input.get_char(i - 1)) {
            } else {
                out.push(' ');
            }
        } else {
            out.push(c);
        }
        i += 1;
    }
    out
}

} // verus!
