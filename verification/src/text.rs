//! Text normalisation and whitespace tokenisation.
//!
//! Normalisation keeps ASCII letters and whitespace and lowercases what is
//! kept. Tokenisation cuts a text into its maximal runs of non-whitespace
//! characters.

use regex::Regex;
use vstd::prelude::*;
use vstd::string::*;

verus! {

/// An ASCII letter, upper or lower case.
pub open spec fn is_ascii_letter(c: char) -> bool {
    ('a' <= c && c <= 'z') || ('A' <= c && c <= 'Z')
}

/// A character with the Unicode property `White_Space`.
pub open spec fn is_whitespace(c: char) -> bool {
    let n = c as u32;
    ||| 0x09 <= n <= 0x0D
    ||| n == 0x20
    ||| n == 0x85
    ||| n == 0xA0
    ||| n == 0x1680
    ||| 0x2000 <= n <= 0x200A
    ||| n == 0x2028
    ||| n == 0x2029
    ||| n == 0x202F
    ||| n == 0x205F
    ||| n == 0x3000
}

/// The characters that normalisation keeps.
pub open spec fn is_kept(c: char) -> bool {
    is_ascii_letter(c) || is_whitespace(c)
}

/// The lower-case form of an ASCII letter; any other character unchanged.
pub open spec fn lower(c: char) -> char {
    if 'A' <= c && c <= 'Z' {
        ((c as u32) + 32) as char
    } else {
        c
    }
}

/// `s` without the characters that are neither ASCII letters nor whitespace.
pub open spec fn keep_letters(s: Seq<char>) -> Seq<char> {
    s.filter(|c: char| is_kept(c))
}

/// `s` with every ASCII capital replaced by its lower-case form.
pub open spec fn lowered(s: Seq<char>) -> Seq<char> {
    s.map_values(|c: char| lower(c))
}

/// The normal form of a text: only letters and whitespace, all lower case.
pub open spec fn normalized(s: Seq<char>) -> Seq<char> {
    lowered(keep_letters(s))
}

/// The pattern that matches one character that is neither an ASCII letter
/// nor whitespace.
pub open spec fn non_letter_pattern() -> Seq<char> {
    "[^a-zA-Z\\s]"@
}

/// Calls `regex::Regex::new` on `pattern` and `Regex::replace_all` on `text`
/// with `replacement`.
///
/// The contract is stated for the one pattern this library uses, a negated
/// character class, and for the empty replacement: every character outside
/// the class `a-zA-Z\s` is a match of length one, so replacing all matches
/// by nothing keeps exactly the letters and the whitespace, in order. The
/// pattern is valid, so compiling it does not fail.
#[verifier::external_body]
fn replace_all(pattern: &str, text: &str, replacement: &str) -> (out: String)
    requires
        pattern@ == non_letter_pattern(),
        replacement@.len() == 0,
    ensures
        out@ == keep_letters(text@),
{
    Regex::new(pattern).unwrap().replace_all(text, replacement).into_owned()
}

/// Calls `str::to_lowercase`.
///
/// On a text of ASCII letters and whitespace only, the Unicode lower-case
/// mapping changes the capitals `A` to `Z` to `a` to `z` and nothing else.
#[verifier::external_body]
fn to_lowercase(text: &str) -> (out: String)
    requires
        forall|i: int| 0 <= i < text@.len() ==> is_kept(#[trigger] text@[i]),
    ensures
        out@ == lowered(text@),
{
    text.to_lowercase()
}

/// Removes every character that is not an ASCII letter or whitespace, then
/// lowercases the rest.
pub fn clean_text(text: &str) -> (cleaned: String)
    ensures
        cleaned@ == normalized(text@),
{
    proof {
        reveal_strlit("");
    }
    let stripped = replace_all("[^a-zA-Z\\s]", text, "");
    proof {
        lemma_keep_letters_kept(text@);
    }
    to_lowercase(stripped.as_str())
}

/// Every character of `keep_letters(s)` is a letter or whitespace.
pub proof fn lemma_keep_letters_kept(s: Seq<char>)
    ensures
        forall|i: int| 0 <= i < keep_letters(s).len() ==> is_kept(#[trigger] keep_letters(s)[i]),
{
    broadcast use Seq::lemma_filter_pred;
}

/// A text of letters and whitespace only loses nothing.
pub proof fn lemma_keep_letters_identity(s: Seq<char>)
    requires
        forall|i: int| 0 <= i < s.len() ==> is_kept(#[trigger] s[i]),
    ensures
        keep_letters(s) == s,
    decreases s.len(),
{
    reveal(Seq::filter);
    if s.len() > 0 {
        lemma_keep_letters_identity(s.drop_last());
        assert(s.drop_last().push(s.last()) =~= s);
    }
}

/// Normalising twice gives what normalising once gives.
pub proof fn lemma_normalize_idempotent(s: Seq<char>)
    ensures
        normalized(normalized(s)) == normalized(s),
{
    let once = normalized(s);
    lemma_keep_letters_kept(s);
    assert forall|i: int| 0 <= i < once.len() implies is_kept(#[trigger] once[i]) by {
        assert(is_kept(keep_letters(s)[i]));
    }
    lemma_keep_letters_identity(once);
    assert(lowered(once) =~= once);
}

/// The characters of `text`, in order.
fn chars_of(text: &str) -> (chars: Vec<char>)
    ensures
        chars@ == text@,
{
    let mut chars: Vec<char> = Vec::new();
    for c in it: text.chars()
        invariant
            it.seq() == text@,
            chars@ == it.seq().take(it.index()),
    {
        chars.push(c);
    }
    chars
}

/// Whether `c` has the Unicode property `White_Space`.
pub fn char_is_whitespace(c: char) -> (b: bool)
    ensures
        b == is_whitespace(c),
{
    let n: u32 = c as u32;
    (0x09 <= n && n <= 0x0D) || n == 0x20 || n == 0x85 || n == 0xA0 || n == 0x1680 || (0x2000 <= n
        && n <= 0x200A) || n == 0x2028 || n == 0x2029 || n == 0x202F || n == 0x205F || n
        == 0x3000
}

/// The length of the run of non-whitespace characters that `s` starts with.
pub open spec fn word_len(s: Seq<char>) -> nat
    decreases s.len(),
{
    if s.len() == 0 || is_whitespace(s[0]) {
        0
    } else {
        1 + word_len(s.drop_first())
    }
}

/// The leading word of `s` is no longer than `s`.
pub proof fn lemma_word_len_bounded(s: Seq<char>)
    ensures
        word_len(s) <= s.len(),
    decreases s.len(),
{
    if s.len() > 0 && !is_whitespace(s[0]) {
        lemma_word_len_bounded(s.drop_first());
    }
}

/// The leading word of `s` has length `k` when the first `k` characters
/// are not whitespace and the text ends or goes on with whitespace there.
pub proof fn lemma_word_len_is(s: Seq<char>, k: int)
    requires
        0 <= k <= s.len(),
        forall|i: int| 0 <= i < k ==> !is_whitespace(#[trigger] s[i]),
        k == s.len() || is_whitespace(s[k]),
    ensures
        word_len(s) == k,
    decreases k,
{
    if k > 0 {
        let rest = s.drop_first();
        assert forall|i: int| 0 <= i < k - 1 implies !is_whitespace(#[trigger] rest[i]) by {
            assert(rest[i] == s[i + 1]);
        }
        lemma_word_len_is(rest, k - 1);
    }
}

/// The words of `s`: its maximal runs of non-whitespace characters, from
/// left to right. No word is empty, and whitespace at either end or
/// repeated between words yields nothing.
pub open spec fn tokens_of(s: Seq<char>) -> Seq<Seq<char>>
    decreases s.len(),
    via tokens_of_decreases
{
    if s.len() == 0 {
        Seq::empty()
    } else if is_whitespace(s[0]) {
        tokens_of(s.drop_first())
    } else {
        seq![s.take(word_len(s) as int)] + tokens_of(s.skip(word_len(s) as int))
    }
}

#[via_fn]
proof fn tokens_of_decreases(s: Seq<char>) {
    lemma_word_len_bounded(s);
}

/// A word: at least one character, none of them whitespace.
pub open spec fn is_word(w: Seq<char>) -> bool {
    w.len() > 0 && forall|k: int| 0 <= k < w.len() ==> !is_whitespace(#[trigger] w[k])
}

/// No character of the leading word of `s` is whitespace.
pub proof fn lemma_word_len_chars(s: Seq<char>, k: int)
    requires
        0 <= k < word_len(s),
    ensures
        k < s.len(),
        !is_whitespace(s[k]),
    decreases s.len(),
{
    if k > 0 {
        lemma_word_len_chars(s.drop_first(), k - 1);
    }
}

/// Every token of a text is a word.
pub proof fn lemma_tokens_are_words(s: Seq<char>)
    ensures
        forall|i: int| 0 <= i < tokens_of(s).len() ==> is_word(#[trigger] tokens_of(s)[i]),
    decreases s.len(),
{
    if s.len() == 0 {
        assert(tokens_of(s).len() == 0);
    } else if is_whitespace(s[0]) {
        lemma_tokens_are_words(s.drop_first());
        assert(tokens_of(s) == tokens_of(s.drop_first()));
    } else {
        let n = word_len(s) as int;
        lemma_word_len_bounded(s);
        lemma_tokens_are_words(s.skip(n));
        let first = s.take(n);
        assert forall|k: int| 0 <= k < first.len() implies !is_whitespace(#[trigger] first[k]) by {
            lemma_word_len_chars(s, k);
        }
        assert(is_word(first));
        let rest = tokens_of(s.skip(n));
        assert forall|i: int| 0 <= i < tokens_of(s).len() implies is_word(
            #[trigger] tokens_of(s)[i],
        ) by {
            if i > 0 {
                assert(tokens_of(s)[i] == rest[i - 1]);
            }
        }
    }
}

/// Every character of a token of a text is a character of the text.
pub proof fn lemma_token_chars_from_text(s: Seq<char>, i: int, k: int)
    requires
        0 <= i < tokens_of(s).len(),
        0 <= k < tokens_of(s)[i].len(),
    ensures
        s.contains(tokens_of(s)[i][k]),
    decreases s.len(),
{
    if s.len() == 0 {
    } else if is_whitespace(s[0]) {
        let rest = s.drop_first();
        lemma_token_chars_from_text(rest, i, k);
        let at = choose|at: int| 0 <= at < rest.len() && rest[at] == tokens_of(rest)[i][k];
        assert(s[at + 1] == tokens_of(s)[i][k]);
    } else {
        let n = word_len(s) as int;
        lemma_word_len_bounded(s);
        if i == 0 {
            assert(s[k] == tokens_of(s)[i][k]);
        } else {
            let rest = s.skip(n);
            assert(tokens_of(s)[i] == tokens_of(rest)[i - 1]);
            lemma_token_chars_from_text(rest, i - 1, k);
            let at = choose|at: int| 0 <= at < rest.len() && rest[at] == tokens_of(rest)[i - 1][k];
            assert(s[at + n] == tokens_of(s)[i][k]);
        }
    }
}

/// A lower-case ASCII letter.
pub open spec fn is_lower_letter(c: char) -> bool {
    'a' <= c && c <= 'z'
}

/// Every character of a token of a normalised text is a lower-case ASCII
/// letter.
pub proof fn lemma_normalized_tokens_are_lowercase(s: Seq<char>, i: int, k: int)
    requires
        0 <= i < tokens_of(normalized(s)).len(),
        0 <= k < tokens_of(normalized(s))[i].len(),
    ensures
        is_lower_letter(tokens_of(normalized(s))[i][k]),
{
    let text = normalized(s);
    let c = tokens_of(text)[i][k];
    lemma_token_chars_from_text(text, i, k);
    lemma_tokens_are_words(text);
    assert(is_word(tokens_of(text)[i]));
    assert(!is_whitespace(c));
    let at = choose|at: int| 0 <= at < text.len() && text[at] == c;
    lemma_keep_letters_kept(s);
    assert(is_kept(keep_letters(s)[at]));
    assert(c == lower(keep_letters(s)[at]));
}

/// The character sequences of a list of strings.
pub open spec fn texts(v: Seq<String>) -> Seq<Seq<char>> {
    v.map_values(|t: String| t@)
}

/// Splits `text` at whitespace into its words.
pub fn tokenize(text: &str) -> (tokens: Vec<String>)
    ensures
        texts(tokens@) == tokens_of(text@),
{
    let chars = chars_of(text);
    let n = chars.len();
    let mut tokens: Vec<String> = Vec::new();
    let mut i: usize = 0;
    assert(text@.skip(0) =~= text@);
    assert(texts(tokens@) =~= Seq::<Seq<char>>::empty());
    while i < n
        invariant
            i <= n,
            n == chars.len(),
            chars@ == text@,
            texts(tokens@) + tokens_of(text@.skip(i as int)) == tokens_of(text@),
        decreases n - i,
    {
        let ghost rest = text@.skip(i as int);
        if char_is_whitespace(chars[i]) {
            assert(rest.drop_first() =~= text@.skip(i + 1));
            i += 1;
        } else {
            let start = i;
            let mut end = i + 1;
            while end < n && !char_is_whitespace(chars[end])
                invariant
                    start < end <= n,
                    n == chars.len(),
                    forall|k: int| start <= k < end ==> !is_whitespace(#[trigger] chars@[k]),
                decreases n - end,
            {
                end += 1;
            }
            let word = text.substring_char(start, end).to_owned();
            proof {
                lemma_word_len_is(rest, end - start);
                assert(rest.take(end - start) =~= word@);
                assert(rest.skip(end - start) =~= text@.skip(end as int));
                assert(texts(tokens@.push(word)) =~= texts(tokens@).push(word@));
                assert(texts(tokens@).push(word@) + tokens_of(text@.skip(end as int)) =~= texts(
                    tokens@,
                ) + (seq![word@] + tokens_of(text@.skip(end as int))));
            }
            tokens.push(word);
            i = end;
        }
    }
    assert(text@.skip(n as int) =~= Seq::<char>::empty());
    tokens
}

} // verus!
